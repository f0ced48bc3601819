use ecs_sim::simul::{Alpha, Point, Simulator, Span};
use std::cell::Cell;

const MS: i64 = 1_000_000;

fn frame_steps(sim: &mut Simulator, at: i64, state: &mut u64) -> (u64, Alpha) {
    let before = *state;
    let mut frame = sim.go(Point::from_ns(at));
    assert_eq!(frame.now(), Point::from_ns(at));
    let r: Result<(Alpha, u64, u64), ()> = frame.simulate(
        state,
        |s: &u64| *s + 1,
        |s: &u64| *s,
        |p: &u64| *p,
        |s: &u64| Ok(Some(*s)),
        |a: Alpha, cur: u64, prior: u64| (a, cur, prior),
    );
    let (a, cur, _) = r.unwrap();
    assert_eq!(cur, *state);
    (*state - before, a)
}

#[test]
fn spans_of_four_seven_nine_milliseconds() {
    let mut sim = Simulator::new(Span::from_ns(10 * MS), Point::from_ns(0));
    let mut state: u64 = 0;
    let mut counts = Vec::new();
    let mut alpha = Alpha { part: -1, tick: 0 };
    for at in [4 * MS, 11 * MS, 20 * MS] {
        let (n, a) = frame_steps(&mut sim, at, &mut state);
        counts.push(n);
        alpha = a;
        assert!(0 <= a.part && a.part < a.tick);
    }
    assert_eq!(counts, vec![1, 1, 0]);
    assert_eq!(state, 2);
    assert_eq!(sim.total_time(), Span::from_ns(20 * MS));
    assert_eq!(sim.total_time().to_ns(), 20 * MS);
    assert_eq!(alpha, Alpha { part: 0, tick: 10 * MS });
    assert_eq!(alpha.part as f32 / alpha.tick as f32, 0.0);
}

#[test]
fn twenty_five_milliseconds_in_one_frame() {
    let mut sim = Simulator::new(Span::from_ns(10 * MS), Point::from_ns(0));
    let mut state: u64 = 0;
    let snaps = Cell::new(0u32);
    let mut frame = sim.go(Point::from_ns(25 * MS));
    let r: Result<(Alpha, u64, u64), ()> = frame.simulate(
        &mut state,
        |s: &u64| *s + 1,
        |s: &u64| *s * 100,
        |p: &u64| *p * 100,
        |s: &u64| {
            snaps.set(snaps.get() + 1);
            Ok(Some(*s))
        },
        |a: Alpha, cur: u64, prior: u64| (a, cur, prior),
    );
    let (a, cur, prior) = r.unwrap();
    assert_eq!(state, 3);
    assert_eq!(snaps.get(), 1);
    assert_eq!(a, Alpha { part: 5 * MS, tick: 10 * MS });
    assert_eq!(a.part as f32 / a.tick as f32, 0.5);
    assert_eq!(cur, 300);
    assert_eq!(prior, 200);
    assert_eq!(sim.total_time(), Span::from_ns(25 * MS));
}

#[test]
fn frame_without_a_tick_takes_no_snapshot() {
    let mut sim = Simulator::new(Span::from_ns(10), Point::from_ns(100));
    let mut state: u64 = 7;
    let mut frame = sim.go(Point::from_ns(100));
    let r: Result<(Alpha, u64, u64), ()> = frame.simulate(
        &mut state,
        |s: &u64| *s + 1,
        |s: &u64| *s,
        |p: &u64| *p + 1000,
        |_s: &u64| panic!("no snapshot on a frame without ticks"),
        |a: Alpha, cur: u64, prior: u64| (a, cur, prior),
    );
    assert_eq!(r, Ok((Alpha { part: 0, tick: 10 }, 7, 7)));
    assert_eq!(sim.total_time(), Span::zero());
}

#[test]
fn frame_ending_on_a_tick_boundary_takes_no_snapshot() {
    let mut sim = Simulator::new(Span::from_ns(10), Point::from_ns(0));
    let mut state: u64 = 0;
    let mut frame = sim.go(Point::from_ns(30));
    let r: Result<(Alpha, u64, u64), ()> = frame.simulate(
        &mut state,
        |s: &u64| *s + 1,
        |s: &u64| *s,
        |p: &u64| *p + 1000,
        |_s: &u64| Err(()),
        |a: Alpha, cur: u64, prior: u64| (a, cur, prior),
    );
    assert_eq!(r, Ok((Alpha { part: 0, tick: 10 }, 3, 3)));
}

#[test]
fn snapshot_without_prior_presents_the_current_state_twice() {
    let mut sim = Simulator::new(Span::from_ns(10), Point::from_ns(0));
    let mut state: u64 = 0;
    let mut frame = sim.go(Point::from_ns(14));
    let r: Result<(Alpha, u64, u64), ()> = frame.simulate(
        &mut state,
        |s: &u64| *s + 1,
        |s: &u64| *s,
        |p: &u64| *p + 1000,
        |_s: &u64| Ok(None),
        |a: Alpha, cur: u64, prior: u64| (a, cur, prior),
    );
    assert_eq!(r, Ok((Alpha { part: 6, tick: 10 }, 2, 2)));
}

#[test]
fn snapshot_error_ends_the_frame() {
    let mut sim = Simulator::new(Span::from_ns(10), Point::from_ns(0));
    let mut state: u64 = 0;
    let mut frame = sim.go(Point::from_ns(25));
    let r: Result<(Alpha, u64, u64), &str> = frame.simulate(
        &mut state,
        |s: &u64| *s + 1,
        |s: &u64| *s,
        |p: &u64| *p,
        |_s: &u64| Err("no snapshot"),
        |a: Alpha, cur: u64, prior: u64| (a, cur, prior),
    );
    assert_eq!(r, Err("no snapshot"));
    assert_eq!(state, 2);
    assert_eq!(sim.total_time(), Span::from_ns(25));
}

#[test]
fn ticks_are_the_rounded_up_quotient_of_the_total() {
    let mut sim = Simulator::new(Span::from_ns(7), Point::from_ns(0));
    let mut state: u64 = 0;
    let mut at: i64 = 0;
    let mut sum: i64 = 0;
    for d in [0i64, 3, 9, 1, 20, 0, 2, 13] {
        at += d;
        sum += d;
        let (_, a) = frame_steps(&mut sim, at, &mut state);
        assert_eq!(sim.total_time().to_ns(), sum);
        assert_eq!(state as i64, (sum + 6) / 7);
        assert!(0 <= a.part && a.part < 7);
    }
    assert_eq!(sum, 48);
    assert_eq!(state, 7);
}

#[test]
fn ticks_match_the_quotient_when_the_tick_divides_the_total() {
    let mut sim = Simulator::new(Span::from_ns(5), Point::from_ns(1000));
    let mut state: u64 = 0;
    let mut at: i64 = 1000;
    for d in [2i64, 3, 11, 4] {
        at += d;
        frame_steps(&mut sim, at, &mut state);
    }
    assert_eq!(sim.total_time().to_ns(), 20);
    assert_eq!(state, 20 / 5);
}

#[test]
fn frame_reports_its_start_and_leaves_time_for_later() {
    let mut sim = Simulator::new(Span::from_ns(10), Point::from_ns(0));
    {
        let frame = sim.go(Point::from_ns(4));
        assert_eq!(frame.now().to_ns(), 4);
    }
    assert_eq!(sim.total_time(), Span::zero());
    assert_eq!(sim.last_seen(), Point::from_ns(0));
    assert_eq!(sim.tick(), Span::from_ns(10));
    let mut state: u64 = 0;
    let (n, a) = frame_steps(&mut sim, 12, &mut state);
    assert_eq!(sim.last_seen(), Point::from_ns(12));
    assert_eq!(n, 2);
    assert_eq!(a, Alpha { part: 8, tick: 10 });
    assert_eq!(sim.total_time().to_ns(), 12);
}
