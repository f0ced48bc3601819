//! Fixed-tick simulation with interpolated presentation.
//!
//! Real time is accumulated frame by frame and spent in whole ticks; the
//! part of a tick that was simulated ahead of real time becomes the blend
//! factor between the state before the last tick and the state after it.
use vstd::prelude::*;

verus! {

/// A span of time, in nanoseconds.
#[derive(Clone, Copy, Debug, PartialEq, Eq, Structural)]
pub struct Span {
    pub ns: i64,
}

impl Span {
    pub fn from_ns(ns: i64) -> (r: Span)
        ensures
            r.ns == ns,
    {
        Span { ns }
    }

    pub fn zero() -> (r: Span)
        ensures
            r.ns == 0,
    {
        Span { ns: 0 }
    }

    pub fn to_ns(&self) -> (r: i64)
        ensures
            r == self.ns,
    {
        self.ns
    }
}

/// An instant of a monotonic clock, in nanoseconds from the clock's origin.
#[derive(Clone, Copy, Debug, PartialEq, Eq, Structural)]
pub struct Point {
    pub ns: i64,
}

impl Point {
    pub fn from_ns(ns: i64) -> (r: Point)
        ensures
            r.ns == ns,
    {
        Point { ns }
    }

    pub fn to_ns(&self) -> (r: i64)
        ensures
            r == self.ns,
    {
        self.ns
    }
}

/// The blend factor `part / tick`: how much of the next tick has already
/// been simulated ahead of real time.
#[derive(Clone, Copy, Debug, PartialEq, Eq, Structural)]
pub struct Alpha {
    pub part: i64,
    pub tick: i64,
}

/// The sum of a sequence of spans.
pub open spec fn sum(s: Seq<int>) -> int
    decreases s.len(),
{
    if s.len() == 0 {
        0
    } else {
        sum(s.drop_last()) + s.last()
    }
}

/// What a simulator has done so far.
pub struct SimView {
    pub tick: int,
    pub last: int,
    pub cumul: int,
    pub total: int,
    /// Every elapsed span taken in, in order.
    pub spans: Seq<int>,
    /// How many ticks have been taken out of the accumulator.
    pub ticks: int,
}

impl SimView {
    pub open spec fn wf(self) -> bool {
        &&& 0 < self.tick <= i64::MAX
        &&& -self.tick < self.cumul <= 0
        &&& forall|j: int| 0 <= j < self.spans.len() ==> #[trigger] self.spans[j] >= 0
        &&& self.total == sum(self.spans)
        &&& self.total >= 0
        &&& self.ticks >= 0
        &&& self.cumul == self.total - self.ticks * self.tick
    }
}

/// The blend factor that a simulator in view `v` presents: the part of the
/// next tick already simulated, `-cumul / tick`.
pub open spec fn alpha_of(v: SimView) -> Alpha {
    Alpha { part: (-v.cumul) as i64, tick: v.tick as i64 }
}

/// `trace` goes from its first state to its last by one `step` for each
/// consecutive pair.
pub open spec fn stepped<S, Step: Fn(&S) -> S>(step: Step, trace: Seq<S>) -> bool {
    forall|j: int| 0 <= j < trace.len() - 1 ==> step.ensures((&trace[j],), #[trigger] trace[j + 1])
}

/// What a frame presents after stepping through `trace`, with `cumul` left in
/// the accumulator: `interpolate(alpha, render_view(current), prior)`. The
/// prior view comes from a snapshot of the state before the last step where
/// that step left the accumulator below zero and the snapshot gave one, and
/// from the current state otherwise.
pub open spec fn presents<S, P, V, E, R, Fv, Gv, H, I>(
    render_view: Fv,
    prior_view: Gv,
    snapshot: H,
    interpolate: I,
    trace: Seq<S>,
    alpha: Alpha,
    cumul: int,
    r: R,
) -> bool where
    Fv: Fn(&S) -> V,
    Gv: Fn(&P) -> V,
    H: Fn(&S) -> Result<Option<P>, E>,
    I: FnOnce(Alpha, V, V) -> R,
 {
    let n = trace.len() - 1;
    let cur = trace.last();
    exists|vc: V, vp: V|
        {
            &&& render_view.ensures((&cur,), vc)
            &&& interpolate.ensures((alpha, vc, vp), r)
            &&& if n > 0 && cumul < 0 {
                exists|o: Option<P>|
                    {
                        &&& snapshot.ensures((&trace[n - 1],), Ok::<Option<P>, E>(o))
                        &&& match o {
                            Some(p) => prior_view.ensures((&p,), vp),
                            None => render_view.ensures((&cur,), vp),
                        }
                    }
            } else {
                render_view.ensures((&cur,), vp)
            }
        }
}

/// What simulating one frame that began at `start` does, from simulator
/// `before` and state `s0` to simulator `after`, state `s1` and result `r`:
/// the span since the last instant seen is taken in; while the accumulator is
/// above zero a tick is taken out of it and the state stepped once; and the
/// frame presents the blend of the views, or ends with the snapshot's error.
pub open spec fn simulates<S, P, V, E, R, Step, Fv, Gv, H, I>(
    before: SimView,
    start: int,
    after: SimView,
    s0: S,
    s1: S,
    step: Step,
    render_view: Fv,
    prior_view: Gv,
    snapshot: H,
    interpolate: I,
    r: Result<R, E>,
) -> bool where
    Step: Fn(&S) -> S,
    Fv: Fn(&S) -> V,
    Gv: Fn(&P) -> V,
    H: Fn(&S) -> Result<Option<P>, E>,
    I: FnOnce(Alpha, V, V) -> R,
 {
    &&& after.tick == before.tick
    &&& after.last == start
    &&& after.total == before.total + (start - before.last)
    &&& after.spans == before.spans.push(start - before.last)
    &&& after.ticks >= before.ticks
    &&& after.cumul == before.cumul + (start - before.last) - (after.ticks - before.ticks) * before.tick
    &&& match r {
        Ok(x) => {
            &&& before.cumul + (start - before.last) <= 0 ==> after.ticks == before.ticks
            &&& exists|trace: Seq<S>|
                {
                    &&& trace.len() == after.ticks - before.ticks + 1
                    &&& trace[0] == s0
                    &&& trace.last() == s1
                    &&& stepped(step, trace)
                    &&& presents(
                        render_view,
                        prior_view,
                        snapshot,
                        interpolate,
                        trace,
                        alpha_of(after),
                        after.cumul,
                        x,
                    )
                }
        },
        Err(e) => {
            &&& after.cumul < 0
            &&& after.ticks > before.ticks
            &&& exists|trace: Seq<S>|
                {
                    &&& trace.len() == after.ticks - before.ticks
                    &&& trace[0] == s0
                    &&& trace.last() == s1
                    &&& stepped(step, trace)
                    &&& snapshot.ensures((&s1,), Err::<Option<P>, E>(e))
                }
        },
    }
}

/// Between frames the blend factor lies in `[0, 1)`: its part is at least
/// zero and below the tick.
pub proof fn lemma_alpha_in_unit(v: SimView)
    requires
        v.wf(),
    ensures
        alpha_of(v).tick == v.tick,
        alpha_of(v).part == -v.cumul,
        0 <= alpha_of(v).part < alpha_of(v).tick,
{
}

/// Between frames the total time is the exact sum of the spans taken in, and
/// the ticks taken are the sum divided by the tick, rounded up: exactly the
/// quotient where the tick divides the sum.
pub proof fn lemma_tick_count(v: SimView)
    requires
        v.wf(),
    ensures
        v.total == sum(v.spans),
        v.total <= v.ticks * v.tick < v.total + v.tick,
        v.ticks == (v.total + v.tick - 1) / v.tick,
        v.total % v.tick == 0 ==> v.ticks == v.total / v.tick,
{
    let t = v.tick;
    let n = v.ticks;
    let total = v.total;
    assert(total <= n * t < total + t);
    let q = (total + t - 1) / t;
    let m = (total + t - 1) % t;
    vstd::arithmetic::div_mod::lemma_fundamental_div_mod(total + t - 1, t);
    assert(0 <= m < t);
    assert(total + t - 1 == q * t + m);
    assert(n == q) by (nonlinear_arith)
        requires
            total <= n * t,
            n * t < total + t,
            total + t - 1 == q * t + m,
            0 <= m < t,
            t > 0,
    ;
    if total % t == 0 {
        vstd::arithmetic::div_mod::lemma_fundamental_div_mod(total, t);
        let q2 = total / t;
        assert(total == q2 * t);
        assert(n == q2) by (nonlinear_arith)
            requires
                total <= n * t,
                n * t < total + t,
                total == q2 * t,
                t > 0,
        ;
    }
}

/// Drives a state through fixed ticks as real time passes.
pub struct Simulator {
    tick: Span,
    last: Point,
    cumul: Span,
    total: Span,
    spans: Ghost<Seq<int>>,
    ticks: Ghost<int>,
}

impl View for Simulator {
    type V = SimView;

    closed spec fn view(&self) -> SimView {
        SimView {
            tick: self.tick.ns as int,
            last: self.last.ns as int,
            cumul: self.cumul.ns as int,
            total: self.total.ns as int,
            spans: self.spans@,
            ticks: self.ticks@,
        }
    }
}

impl Simulator {
    /// A simulator with the given tick, whose clock starts at `now`.
    pub fn new(tick: Span, now: Point) -> (r: Simulator)
        requires
            tick.ns > 0,
        ensures
            r@.wf(),
            r@.tick == tick.ns,
            r@.last == now.ns,
            r@.cumul == 0,
            r@.total == 0,
            r@.spans == Seq::<int>::empty(),
            r@.ticks == 0,
    {
        Simulator {
            tick,
            last: now,
            cumul: Span { ns: 0 },
            total: Span { ns: 0 },
            spans: Ghost(Seq::empty()),
            ticks: Ghost(0),
        }
    }

    /// Starts a frame at `now`. The frame remembers that instant, so work
    /// done before it is simulated does not shift the simulation.
    pub fn go(&mut self, now: Point) -> (r: Frame<'_>)
        ensures
            *r.sim == *old(self),
            r.start == now,
            *final(self) == *final(r.sim),
    {
        Frame { sim: self, start: now }
    }

    /// The last instant taken in: where the next frame's span begins.
    pub fn last_seen(&self) -> (r: Point)
        ensures
            r.ns == self@.last,
    {
        self.last
    }

    /// The tick.
    pub fn tick(&self) -> (r: Span)
        ensures
            r.ns == self@.tick,
    {
        self.tick
    }

    /// The total time taken in, partial ticks included.
    pub fn total_time(&self) -> (r: Span)
        ensures
            r.ns == self@.total,
    {
        self.total
    }

    /// Takes in the time from the last instant seen to `now`.
    fn elapse(&mut self, now: Point)
        requires
            old(self)@.wf(),
            old(self)@.last <= now.ns,
            old(self)@.total + (now.ns - old(self)@.last) <= i64::MAX,
        ensures
            final(self)@ == (SimView {
                last: now.ns as int,
                cumul: old(self)@.cumul + (now.ns - old(self)@.last),
                total: old(self)@.total + (now.ns - old(self)@.last),
                spans: old(self)@.spans.push(now.ns - old(self)@.last),
                ..old(self)@
            }),
    {
        let elapsed = now.ns - self.last.ns;
        self.last = now;
        self.cumul = Span { ns: self.cumul.ns + elapsed };
        self.total = Span { ns: self.total.ns + elapsed };
        self.spans = Ghost(self.spans@.push(elapsed as int));
    }

    /// Simulates one frame that began at `start`: takes in the time since the
    /// last instant seen, then, while the accumulator is above zero, takes a
    /// tick out of it and steps `state` once. Before the step that leaves the
    /// accumulator below zero, `snapshot` is taken of the state; an error
    /// there ends the frame. Returns what `interpolate` makes of the blend
    /// factor and the two views.
    pub fn run<S, P, V, E, R, Step, Fv, Gv, H, I>(
        &mut self,
        start: Point,
        state: &mut S,
        step: Step,
        render_view: Fv,
        prior_view: Gv,
        snapshot: H,
        interpolate: I,
    ) -> (r: Result<R, E>) where
        Step: Fn(&S) -> S,
        Fv: Fn(&S) -> V,
        Gv: Fn(&P) -> V,
        H: Fn(&S) -> Result<Option<P>, E>,
        I: FnOnce(Alpha, V, V) -> R,

        requires
            old(self)@.wf(),
            old(self)@.last <= start.ns,
            old(self)@.total + (start.ns - old(self)@.last) <= i64::MAX,
            forall|x: S| step.requires((&x,)),
            forall|x: S| render_view.requires((&x,)),
            forall|p: P| prior_view.requires((&p,)),
            forall|x: S| snapshot.requires((&x,)),
            forall|a: Alpha, x: V, y: V| interpolate.requires((a, x, y)),
        ensures
            final(self)@.wf(),
            simulates(
                old(self)@,
                start.ns as int,
                final(self)@,
                *old(state),
                *final(state),
                step,
                render_view,
                prior_view,
                snapshot,
                interpolate,
                r,
            ),
    {
        let ghost v0 = self@;
        self.elapse(start);
        let ghost v1 = self@;
        let ghost c0 = self@.cumul;
        proof {
            assert(v1.spans.drop_last() =~= v0.spans);
        }
        let mut prior: Option<P> = None;
        let ghost mut took = false;
        let ghost mut trace: Seq<S> = seq![*state];
        while self.cumul.ns > 0
            invariant
                v0 == old(self)@,
                v0.wf(),
                v1.tick == v0.tick,
                v1.spans == v0.spans.push(v1.total - v0.total),
                v1.total - v0.total >= 0,
                v1.cumul == v0.cumul + (v1.total - v0.total),
                v1.ticks == v0.ticks,
                v1.last == start.ns,
                v1.total == v0.total + (start.ns - v0.last),
                v1.total == sum(v1.spans),
                v1.total <= i64::MAX,
                c0 == v1.cumul,
                self@.tick == v1.tick,
                self@.last == v1.last,
                self@.total == v1.total,
                self@.spans == v1.spans,
                self@.ticks - v1.ticks == trace.len() - 1,
                self@.cumul == c0 - (trace.len() - 1) * v1.tick,
                trace.len() > 1 ==> self@.cumul > -v1.tick && c0 > 0,
                trace.len() >= 1,
                trace[0] == *old(state),
                trace.last() == *state,
                stepped(step, trace),
                forall|x: S| step.requires((&x,)),
                forall|x: S| snapshot.requires((&x,)),
                took ==> self@.cumul < 0 && trace.len() >= 2 && snapshot.ensures(
                    (&trace[trace.len() - 2],),
                    Ok::<Option<P>, E>(prior),
                ),
                !took ==> prior is None && (self@.cumul >= 0 || trace.len() == 1),
            decreases self.cumul.ns + self.tick.ns,
        {
            self.cumul = Span { ns: self.cumul.ns - self.tick.ns };
            self.ticks = Ghost(self.ticks@ + 1);
            proof {
                assert(self@.cumul == c0 - trace.len() * v1.tick) by (nonlinear_arith)
                    requires
                        self@.cumul + v1.tick == c0 - (trace.len() - 1) * v1.tick,
                ;
            }
            if self.cumul.ns < 0 {
                match snapshot(&*state) {
                    Ok(o) => {
                        prior = o;
                        proof {
                            took = true;
                        }
                    },
                    Err(e) => {
                        proof {
                            assert(self@.cumul == v0.cumul + (v1.total - v0.total) - (self@.ticks
                                - v0.ticks) * v0.tick);
                            assert(self@.total - self@.ticks * self@.tick == self@.cumul)
                                by (nonlinear_arith)
                                requires
                                    v0.cumul == v0.total - v0.ticks * v0.tick,
                                    self@.cumul == v0.cumul + (v1.total - v0.total) - (self@.ticks
                                        - v0.ticks) * v0.tick,
                                    self@.total == v1.total,
                                    self@.tick == v0.tick,
                            ;
                        }
                        return Err(e);
                    },
                }
            }
            let next = step(&*state);
            proof {
                let t2 = trace.push(next);
                assert forall|j: int| 0 <= j < t2.len() - 1 implies step.ensures(
                    (&t2[j],),
                    #[trigger] t2[j + 1],
                ) by {
                    if j < trace.len() - 1 {
                        assert(t2[j] == trace[j]);
                        assert(t2[j + 1] == trace[j + 1]);
                    }
                }
                trace = t2;
            }
            *state = next;
        }
        proof {
            assert(self@.total - self@.ticks * self@.tick == self@.cumul) by (nonlinear_arith)
                requires
                    v0.cumul == v0.total - v0.ticks * v0.tick,
                    self@.cumul == c0 - (self@.ticks - v0.ticks) * v0.tick,
                    c0 == v0.cumul + (v1.total - v0.total),
                    self@.total == v1.total,
                    self@.tick == v0.tick,
            ;
        }
        let alpha = Alpha { part: -self.cumul.ns, tick: self.tick.ns };
        let vc = render_view(&*state);
        let vp = match &prior {
            Some(p) => prior_view(p),
            None => render_view(&*state),
        };
        let x = interpolate(alpha, vc, vp);
        proof {
            assert(alpha == alpha_of(self@));
            let n = trace.len() - 1;
            let cur = trace.last();
            assert(cur == *state);
            if n > 0 && self@.cumul < 0 {
                assert(took);
                assert(snapshot.ensures((&trace[n - 1],), Ok::<Option<P>, E>(prior)));
                match prior {
                    Some(p) => assert(prior_view.ensures((&p,), vp)),
                    None => assert(render_view.ensures((&cur,), vp)),
                }
            } else {
                assert(render_view.ensures((&cur,), vp));
            }
            assert(presents(render_view, prior_view, snapshot, interpolate, trace, alpha, self@.cumul, x));
        }
        Ok(x)
    }
}

/// One frame of a simulation: the simulator, and the instant the frame began.
pub struct Frame<'a> {
    pub sim: &'a mut Simulator,
    pub start: Point,
}

impl<'a> Frame<'a> {
    /// The instant the frame began.
    pub fn now(&self) -> (r: Point)
        ensures
            r == self.start,
    {
        self.start
    }

    /// Simulates the frame: see `Simulator::run`, which this runs from the
    /// instant the frame began.
    pub fn simulate<S, P, V, E, R, Step, Fv, Gv, H, I>(
        &mut self,
        state: &mut S,
        step: Step,
        render_view: Fv,
        prior_view: Gv,
        snapshot: H,
        interpolate: I,
    ) -> (r: Result<R, E>) where
        Step: Fn(&S) -> S,
        Fv: Fn(&S) -> V,
        Gv: Fn(&P) -> V,
        H: Fn(&S) -> Result<Option<P>, E>,
        I: FnOnce(Alpha, V, V) -> R,

        requires
            (*old(self).sim)@.wf(),
            (*old(self).sim)@.last <= old(self).start.ns,
            (*old(self).sim)@.total + (old(self).start.ns - (*old(self).sim)@.last) <= i64::MAX,
            forall|x: S| step.requires((&x,)),
            forall|x: S| render_view.requires((&x,)),
            forall|p: P| prior_view.requires((&p,)),
            forall|x: S| snapshot.requires((&x,)),
            forall|a: Alpha, x: V, y: V| interpolate.requires((a, x, y)),
        ensures
            final(self).start == old(self).start,
            (*final(self).sim)@.wf(),
            simulates(
                (*old(self).sim)@,
                old(self).start.ns as int,
                (*final(self).sim)@,
                *old(state),
                *final(state),
                step,
                render_view,
                prior_view,
                snapshot,
                interpolate,
                r,
            ),
    {
        let start = self.start;
        self.sim.run(start, state, step, render_view, prior_view, snapshot, interpolate)
    }
}

} // verus!
