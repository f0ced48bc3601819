//! Fixed-capacity entity-component storage.
//!
//! A store holds `cap` entities and up to `KIND_LIMIT` component kinds. Each
//! kind is a Rust type, registered once, which gets a slot `k` and a column of
//! `cap` cells. Bit `k` of an entity's mask is set exactly when its cell in
//! column `k` holds a value.
use core::any::TypeId;
use vstd::prelude::*;

verus! {

/// How many component kinds a store can register: the width of the mask.
pub const KIND_LIMIT: usize = 64;

/// The identity of a Rust type, from std, carried as an opaque value.
#[verifier::external_type_specification]
#[verifier::external_body]
pub struct ExTypeId(TypeId);

/// Relies on `TypeId::of`: the process-wide identity of the type `C`.
#[verifier::external_body]
pub(crate) fn kind_of<C: ?Sized + 'static>() -> TypeId {
    TypeId::of::<C>()
}

/// Relies on `TypeId`'s `==`: two identities are equal exactly when they are
/// the same identity.
#[verifier::external_body]
fn same_kind(a: &TypeId, b: &TypeId) -> (r: bool)
    ensures
        r == (*a == *b),
{
    *a == *b
}

/// Whether bit `k` of the mask `m` is set.
pub open spec fn has_bit(m: u64, k: int) -> bool {
    0 <= k < 64 && (m >> (k as u64)) & 1u64 == 1u64
}

/// `m` with bit `k` set.
pub open spec fn with_bit(m: u64, k: int) -> u64 {
    m | (1u64 << (k as u64))
}

/// `m` with bit `k` cleared.
pub open spec fn without_bit(m: u64, k: int) -> u64 {
    m & !(1u64 << (k as u64))
}

proof fn lemma_with_bit(m: u64, k: u64, j: u64)
    requires
        k < 64,
        j < 64,
    ensures
        ((m | (1u64 << k)) >> j) & 1u64 == 1u64 <==> (j == k || (m >> j) & 1u64 == 1u64),
{
    assert(((m | (1u64 << k)) >> j) & 1u64 == 1u64 <==> (j == k || (m >> j) & 1u64 == 1u64))
        by (bit_vector)
        requires
            k < 64,
            j < 64,
    ;
}

proof fn lemma_without_bit(m: u64, k: u64, j: u64)
    requires
        k < 64,
        j < 64,
    ensures
        ((m & !(1u64 << k)) >> j) & 1u64 == 1u64 <==> (j != k && (m >> j) & 1u64 == 1u64),
{
    assert(((m & !(1u64 << k)) >> j) & 1u64 == 1u64 <==> (j != k && (m >> j) & 1u64 == 1u64))
        by (bit_vector)
        requires
            k < 64,
            j < 64,
    ;
}

proof fn lemma_low_bit(m: u64, j: u64)
    ensures
        (m >> j) & 1u64 == 0u64 || (m >> j) & 1u64 == 1u64,
{
    assert((m >> j) & 1u64 == 0u64 || (m >> j) & 1u64 == 1u64) by (bit_vector);
}

proof fn lemma_zero_mask(j: u64)
    requires
        j < 64,
    ensures
        (0u64 >> j) & 1u64 == 0u64,
{
    assert((0u64 >> j) & 1u64 == 0u64) by (bit_vector);
}

/// Setting bit `k` sets it and keeps every other bit.
pub proof fn lemma_has_with_bit(m: u64, k: int, j: int)
    requires
        0 <= k < 64,
    ensures
        has_bit(with_bit(m, k), j) <==> (j == k || has_bit(m, j)),
{
    if 0 <= j < 64 {
        lemma_with_bit(m, k as u64, j as u64);
    }
}

/// Clearing bit `k` clears it and keeps every other bit.
pub proof fn lemma_has_without_bit(m: u64, k: int, j: int)
    requires
        0 <= k < 64,
    ensures
        has_bit(without_bit(m, k), j) <==> (j != k && has_bit(m, j)),
{
    if 0 <= j < 64 {
        lemma_without_bit(m, k as u64, j as u64);
    }
}

/// A handle on an entity: its index and the version it was taken at.
#[derive(Clone, Copy, Debug, PartialEq, Eq, Structural)]
pub struct Entity {
    pub index: usize,
    pub version: u64,
}

impl Entity {
    pub fn new(index: usize, version: u64) -> (e: Entity)
        ensures
            e.index == index,
            e.version == version,
    {
        Entity { index, version }
    }
}

/// Why a registration failed.
#[derive(Clone, Copy, Debug, PartialEq, Eq, Structural)]
pub enum Error {
    /// The type is registered already.
    AlreadyRegistered,
    /// `KIND_LIMIT` types are registered already.
    RegistryFull,
}

/// An entity's record: which components it holds, and its version.
#[derive(Clone, Copy, Debug, PartialEq, Eq, Structural)]
struct Enty {
    mask: u64,
    version: u64,
}

/// The mathematical content of a store.
pub struct StoreView<T> {
    /// The registered kinds, by slot.
    pub kinds: Seq<TypeId>,
    /// The presence mask of each entity.
    pub masks: Seq<u64>,
    /// The version of each entity.
    pub versions: Seq<u64>,
    /// `cells[k][i]`: the value of kind `k` held by entity `i`, if any.
    pub cells: Seq<Seq<Option<T>>>,
}

impl<T> StoreView<T> {
    pub open spec fn cap(self) -> nat {
        self.masks.len()
    }

    pub open spec fn registered(self, kind: TypeId) -> bool {
        self.kinds.contains(kind)
    }

    /// The slot of a registered kind.
    pub open spec fn slot_of(self, kind: TypeId) -> int {
        choose|k: int| 0 <= k < self.kinds.len() && self.kinds[k] == kind
    }

    /// Whether `e` names the entity at its index as it is now.
    pub open spec fn live(self, e: Entity) -> bool {
        e.index < self.cap() && e.version == self.versions[e.index as int]
    }

    /// Whether a read or a write of `kind` through `e` takes effect.
    pub open spec fn reaches(self, kind: TypeId, e: Entity) -> bool {
        self.registered(kind) && self.live(e)
    }

    /// The component of `kind` that `e` sees: none unless `e` is live and
    /// `kind` registered.
    pub open spec fn component(self, kind: TypeId, e: Entity) -> Option<T> {
        if self.reaches(kind, e) {
            self.cells[self.slot_of(kind)][e.index as int]
        } else {
            None
        }
    }

    /// The store with `c` in slot `k` of entity `i`, and the mask bit following it.
    pub open spec fn put(self, k: int, i: int, c: Option<T>) -> StoreView<T> {
        StoreView {
            kinds: self.kinds,
            masks: self.masks.update(
                i,
                if c is Some {
                    with_bit(self.masks[i], k)
                } else {
                    without_bit(self.masks[i], k)
                },
            ),
            versions: self.versions,
            cells: self.cells.update(k, self.cells[k].update(i, c)),
        }
    }

    /// The store after entity `i` is destroyed: no components, next version.
    pub open spec fn cleared(self, i: int) -> StoreView<T> {
        StoreView {
            kinds: self.kinds,
            masks: self.masks.update(i, 0u64),
            versions: self.versions.update(i, (self.versions[i] + 1) as u64),
            cells: Seq::new(self.cells.len(), |k: int| self.cells[k].update(i, None)),
        }
    }

    /// The store after `kind` is registered in a new, empty column.
    pub open spec fn with_kind(self, kind: TypeId) -> StoreView<T> {
        StoreView {
            kinds: self.kinds.push(kind),
            masks: self.masks,
            versions: self.versions,
            cells: self.cells.push(Seq::new(self.cap(), |i: int| None)),
        }
    }

    /// What registering `kind` does: it fails on a kind that is there
    /// already, then on a full registry; otherwise `kind` takes the next slot.
    pub open spec fn registers(self, kind: TypeId, r: Result<usize, Error>, next: StoreView<T>) -> bool {
        if self.registered(kind) {
            r == Err::<usize, Error>(Error::AlreadyRegistered) && next == self
        } else if self.kinds.len() >= KIND_LIMIT {
            r == Err::<usize, Error>(Error::RegistryFull) && next == self
        } else {
            &&& r == Ok::<usize, Error>(self.kinds.len() as usize)
            &&& next == self.with_kind(kind)
            &&& next.registered(kind)
            &&& next.slot_of(kind) == self.kinds.len()
        }
    }

    /// What a modification of `kind` through `e` may do, where `f` maps the
    /// present component to the one left behind: nothing unless it reaches
    /// the cell; otherwise the cell, and its mask bit, hold what `f` returned.
    pub open spec fn modifies<F: FnOnce(Option<T>) -> Option<T>>(
        self,
        kind: TypeId,
        e: Entity,
        f: F,
        next: StoreView<T>,
    ) -> bool {
        if self.reaches(kind, e) {
            exists|c: Option<T>|
                f.ensures((self.component(kind, e),), c) && next == self.put(
                    self.slot_of(kind),
                    e.index as int,
                    c,
                )
        } else {
            next == self
        }
    }

    pub open spec fn wf(self) -> bool {
        &&& self.versions.len() == self.masks.len()
        &&& self.kinds.len() == self.cells.len()
        &&& self.kinds.len() <= KIND_LIMIT
        &&& self.kinds.no_duplicates()
        &&& forall|k: int| 0 <= k < self.cells.len() ==> #[trigger] self.cells[k].len() == self.cap()
        &&& forall|k: int, i: int|
            0 <= k < self.cells.len() && 0 <= i < self.cap() ==> (#[trigger] self.cells[k][i] is Some
                <==> has_bit(self.masks[i], k))
        &&& forall|k: int, i: int|
            self.cells.len() <= k && 0 <= i < self.cap() ==> !#[trigger] has_bit(self.masks[i], k)
    }
}

/// In a well-formed store, a live handle sees a component of a registered
/// kind exactly when the entity's mask has that kind's bit.
pub proof fn lemma_presence_is_mask_bit<T>(s: StoreView<T>, kind: TypeId, e: Entity)
    requires
        s.wf(),
        s.reaches(kind, e),
    ensures
        0 <= s.slot_of(kind) < KIND_LIMIT,
        s.component(kind, e) is Some <==> has_bit(s.masks[e.index as int], s.slot_of(kind)),
{
}

/// After a modification that reaches its cell, a lookup of that kind through
/// that handle gives what the closure returned, and the mask bit is set
/// exactly when that is a value; every other kind and entity is untouched.
pub proof fn lemma_lookup_after_modify<T, F: FnOnce(Option<T>) -> Option<T>>(
    s: StoreView<T>,
    kind: TypeId,
    e: Entity,
    f: F,
    next: StoreView<T>,
)
    requires
        s.wf(),
        s.reaches(kind, e),
        s.modifies(kind, e, f, next),
    ensures
        next.reaches(kind, e),
        next.slot_of(kind) == s.slot_of(kind),
        exists|c: Option<T>|
            f.ensures((s.component(kind, e),), c) && next.component(kind, e) == c && (c is Some
                <==> has_bit(next.masks[e.index as int], next.slot_of(kind))),
        forall|kind2: TypeId, e2: Entity|
            (kind2 != kind || e2.index != e.index) ==> #[trigger] next.component(kind2, e2)
                == s.component(kind2, e2),
{
    let c = choose|c: Option<T>|
        f.ensures((s.component(kind, e),), c) && next == s.put(s.slot_of(kind), e.index as int, c);
    let k = s.slot_of(kind);
    let i = e.index as int;
    assert(next.kinds == s.kinds);
    assert(next.reaches(kind, e));
    assert(next.component(kind, e) == c);
    if c is Some {
        lemma_has_with_bit(s.masks[i], k, k);
    } else {
        lemma_has_without_bit(s.masks[i], k, k);
    }
    assert forall|kind2: TypeId, e2: Entity|
        (kind2 != kind || e2.index != e.index) implies #[trigger] next.component(kind2, e2)
            == s.component(kind2, e2) by {
        if s.reaches(kind2, e2) {
            let k2 = s.slot_of(kind2);
            if kind2 != kind {
                assert(s.kinds[k2] == kind2);
                assert(s.kinds[k] == kind);
                assert(k2 != k);
            }
        }
    }
}

/// Registering a kind that is not there yet succeeds exactly while fewer than
/// `KIND_LIMIT` kinds are registered, and each success takes one more slot:
/// of `KIND_LIMIT + 1` distinct kinds, the last one fails.
pub proof fn lemma_registry_bound<T>(s: StoreView<T>, kind: TypeId, r: Result<usize, Error>, next: StoreView<T>)
    requires
        s.wf(),
        !s.registered(kind),
        s.registers(kind, r, next),
    ensures
        r is Ok <==> s.kinds.len() < KIND_LIMIT,
        r is Err ==> r == Err::<usize, Error>(Error::RegistryFull) && next == s,
        r is Ok ==> next.kinds.len() == s.kinds.len() + 1 && next.kinds == s.kinds.push(kind),
{
}

/// An entity-component store whose components are values of `T`, kept in one
/// column for each registered kind.
pub struct Components<T> {
    entities: Vec<Enty>,
    kinds: Vec<TypeId>,
    columns: Vec<Vec<Option<T>>>,
}

impl<T> View for Components<T> {
    type V = StoreView<T>;

    closed spec fn view(&self) -> StoreView<T> {
        StoreView {
            kinds: self.kinds@,
            masks: self.entities@.map_values(|e: Enty| e.mask),
            versions: self.entities@.map_values(|e: Enty| e.version),
            cells: self.columns@.map_values(|c: Vec<Option<T>>| c@),
        }
    }
}

impl<T> Components<T> {
    pub open spec fn wf(&self) -> bool {
        self@.wf()
    }

    /// A store of `cap` entities, each with version 0 and no components, and
    /// no kinds registered.
    pub fn with_capacity(cap: usize) -> (r: Option<Self>)
        ensures
            r is Some,
            r->0.wf(),
            r->0@.cap() == cap,
            r->0@.kinds.len() == 0,
            forall|i: int| 0 <= i < cap ==> r->0@.masks[i] == 0 && r->0@.versions[i] == 0,
    {
        let mut entities: Vec<Enty> = Vec::with_capacity(cap);
        let mut n: usize = 0;
        while n < cap
            invariant
                n <= cap,
                entities@.len() == n,
                forall|i: int| 0 <= i < n ==> entities@[i] == (Enty { mask: 0, version: 0 }),
            decreases cap - n,
        {
            entities.push(Enty { mask: 0, version: 0 });
            n = n + 1;
        }
        let s = Components { entities, kinds: Vec::new(), columns: Vec::new() };
        proof {
            assert forall|k: int, i: int| s@.cells.len() <= k && 0 <= i < s@.cap() implies !#[trigger] has_bit(s@.masks[i], k) by {
                if 0 <= k < 64 {
                    lemma_zero_mask(k as u64);
                }
            }
        }
        Some(s)
    }

    /// The slot of `kind`, if it is registered.
    fn find(&self, kind: &TypeId) -> (r: Option<usize>)
        requires
            self.wf(),
        ensures
            r is Some <==> self@.registered(*kind),
            r is Some ==> r->0 == self@.slot_of(*kind) && r->0 < self@.kinds.len(),
    {
        let mut k: usize = 0;
        while k < self.kinds.len()
            invariant
                self.wf(),
                k <= self.kinds@.len(),
                forall|j: int| 0 <= j < k ==> self.kinds@[j] != *kind,
            decreases self.kinds@.len() - k,
        {
            if same_kind(&self.kinds[k], kind) {
                proof {
                    let w = self@.slot_of(*kind);
                    assert(self@.kinds[k as int] == *kind);
                    assert(self@.kinds[w] == *kind);
                    assert(self@.kinds.no_duplicates());
                }
                return Some(k);
            }
            k = k + 1;
        }
        None
    }

    /// Registers `kind` in the next free slot, with an empty column.
    pub fn reg_kind(&mut self, kind: TypeId) -> (r: Result<usize, Error>)
        requires
            old(self).wf(),
        ensures
            final(self).wf(),
            old(self)@.registers(kind, r, final(self)@),
    {
        if self.find(&kind).is_some() {
            return Err(Error::AlreadyRegistered);
        }
        if self.kinds.len() >= KIND_LIMIT {
            return Err(Error::RegistryFull);
        }
        let ghost before = self@;
        let cap = self.entities.len();
        let mut column: Vec<Option<T>> = Vec::with_capacity(cap);
        let mut n: usize = 0;
        while n < cap
            invariant
                n <= cap,
                column@.len() == n,
                forall|i: int| 0 <= i < n ==> column@[i] is None,
            decreases cap - n,
        {
            column.push(None);
            n = n + 1;
        }
        let k = self.kinds.len();
        self.kinds.push(kind);
        self.columns.push(column);
        proof {
            let want = before.with_kind(kind);
            assert(self@.kinds =~= want.kinds);
            assert(self@.masks =~= want.masks);
            assert(self@.versions =~= want.versions);
            assert(column@ =~= Seq::new(before.cap(), |i: int| None::<T>));
            assert(self@.cells =~= want.cells);
            assert forall|j: int| 0 <= j < k implies self@.kinds[j] != kind by {
                assert(before.kinds[j] == self@.kinds[j]);
            }
            assert(self@.kinds.no_duplicates());
            assert(self@.kinds[k as int] == kind);
            assert(self@.registered(kind));
            let w = self@.slot_of(kind);
            assert(self@.kinds[w] == kind);
            assert forall|c: int, i: int| self@.cells.len() <= c && 0 <= i < self@.cap()
                implies !#[trigger] has_bit(self@.masks[i], c) by {
                assert(before.cells.len() <= c);
            }
        }
        Ok(k)
    }

    /// Registers the type `C` as a component kind, in the next free slot.
    pub fn reg<C: 'static>(&mut self) -> (r: Result<usize, Error>)
        requires
            old(self).wf(),
        ensures
            final(self).wf(),
            exists|kind: TypeId| old(self)@.registers(kind, r, final(self)@),
    {
        self.reg_kind(kind_of::<C>())
    }

    /// The component of `kind` held by `e`, if `e` is live.
    pub fn get_kind(&self, kind: &TypeId, e: Entity) -> (r: Option<&T>)
        requires
            self.wf(),
        ensures
            match r {
                Some(v) => self@.component(*kind, e) == Some(*v),
                None => self@.component(*kind, e) is None,
            },
    {
        let k = match self.find(kind) {
            None => return None,
            Some(k) => k,
        };
        if e.index >= self.entities.len() {
            return None;
        }
        let en = self.entities[e.index];
        proof {
            assert(self@.masks[e.index as int] == en.mask);
            assert(self@.versions[e.index as int] == en.version);
        }
        if e.version != en.version || (en.mask >> (k as u64)) & 1u64 == 0u64 {
            return None;
        }
        proof {
            assert(self@.cells[k as int] == self.columns@[k as int]@);
            lemma_low_bit(en.mask, k as u64);
            assert(has_bit(en.mask, k as int));
        }
        match &self.columns[k][e.index] {
            Some(v) => Some(v),
            None => None,
        }
    }

    /// The component of type `C` held by `e`, if `e` is live.
    pub fn get<C: 'static>(&self, e: Entity) -> (r: Option<&T>)
        requires
            self.wf(),
        ensures
            exists|kind: TypeId|
                match r {
                    Some(v) => self@.component(kind, e) == Some(*v),
                    None => self@.component(kind, e) is None,
                },
    {
        let kind = kind_of::<C>();
        self.get_kind(&kind, e)
    }

    /// Hands the component of `kind` held by `e` (or `None`) to `f`, and keeps
    /// what `f` returns: a value is inserted, replaced or removed this way. A
    /// stale handle or an unregistered kind leaves the store as it is, and
    /// `f` is not called.
    pub fn modify_kind<F: FnOnce(Option<T>) -> Option<T>>(&mut self, kind: &TypeId, e: Entity, f: F)
        requires
            old(self).wf(),
            f.requires((old(self)@.component(*kind, e),)),
        ensures
            final(self).wf(),
            old(self)@.modifies(*kind, e, f, final(self)@),
    {
        let k = match self.find(kind) {
            None => return,
            Some(k) => k,
        };
        let i = e.index;
        if i >= self.entities.len() {
            return;
        }
        let en = self.entities[i];
        proof {
            assert(self@.masks[i as int] == en.mask);
            assert(self@.versions[i as int] == en.version);
        }
        if e.version != en.version {
            return;
        }
        let ghost before = self@;
        proof {
            assert(before.cells[k as int] == self.columns@[k as int]@);
        }
        let cur = self.columns[k][i].take();
        let out = f(cur);
        let mask = if out.is_some() {
            en.mask | (1u64 << (k as u64))
        } else {
            en.mask & !(1u64 << (k as u64))
        };
        self.columns[k][i] = out;
        self.entities[i] = Enty { mask, version: en.version };
        proof {
            let want = before.put(k as int, i as int, out);
            assert(self@.kinds =~= want.kinds);
            assert(self@.masks =~= want.masks);
            assert(self@.versions =~= want.versions);
            assert forall|c: int| 0 <= c < want.cells.len() implies #[trigger] self@.cells[c] == want.cells[c] by {
                assert(self@.cells[c] =~= want.cells[c]);
            }
            assert(self@.cells =~= want.cells);
            assert forall|c: int, j: int| 0 <= c < want.cells.len() && 0 <= j < want.cap() implies (#[trigger] want.cells[c][j] is Some
                <==> has_bit(want.masks[j], c)) by {
                if j == i {
                    if out is Some {
                        lemma_has_with_bit(en.mask, k as int, c);
                    } else {
                        lemma_has_without_bit(en.mask, k as int, c);
                    }
                }
            }
            assert forall|c: int, j: int| want.cells.len() <= c && 0 <= j < want.cap()
                implies !#[trigger] has_bit(want.masks[j], c) by {
                if j == i {
                    if out is Some {
                        lemma_has_with_bit(en.mask, k as int, c);
                    } else {
                        lemma_has_without_bit(en.mask, k as int, c);
                    }
                }
            }
            assert(self@ == want);
        }
    }

    /// Hands the component of type `C` held by `e` (or `None`) to `f`, and
    /// keeps what `f` returns.
    pub fn modify<C: 'static, F: FnOnce(Option<T>) -> Option<T>>(&mut self, e: Entity, f: F)
        requires
            old(self).wf(),
            forall|c: Option<T>| f.requires((c,)),
        ensures
            final(self).wf(),
            exists|kind: TypeId| old(self)@.modifies(kind, e, f, final(self)@),
    {
        let kind = kind_of::<C>();
        self.modify_kind(&kind, e, f)
    }

    /// Destroys the entity that `e` names: its components are dropped, its
    /// mask cleared and its version advanced, so that `e` and every other
    /// handle of the old version go stale. Returns whether `e` was live; a
    /// stale handle changes nothing.
    pub fn destroy(&mut self, e: Entity) -> (r: bool)
        requires
            old(self).wf(),
            old(self)@.live(e) ==> old(self)@.versions[e.index as int] < u64::MAX,
        ensures
            final(self).wf(),
            r == old(self)@.live(e),
            r ==> final(self)@ == old(self)@.cleared(e.index as int),
            !r ==> final(self)@ == old(self)@,
    {
        let i = e.index;
        if i >= self.entities.len() {
            return false;
        }
        let en = self.entities[i];
        proof {
            assert(self@.versions[i as int] == en.version);
        }
        if e.version != en.version {
            return false;
        }
        let ghost before = self@;
        let mut k: usize = 0;
        while k < self.columns.len()
            invariant
                before.wf(),
                i < before.cap(),
                k <= self.columns@.len(),
                self.kinds@ == before.kinds,
                self.entities@ == old(self).entities@,
                self.columns@.len() == before.cells.len(),
                forall|c: int| 0 <= c < k ==> #[trigger] self.columns@[c]@ == before.cells[c].update(i as int, None),
                forall|c: int| k <= c < self.columns@.len() ==> #[trigger] self.columns@[c]@ == before.cells[c],
            decreases self.columns@.len() - k,
        {
            proof {
                assert(self.columns@[k as int]@ == before.cells[k as int]);
            }
            self.columns[k][i] = None;
            k = k + 1;
        }
        self.entities[i] = Enty { mask: 0, version: en.version + 1 };
        proof {
            let want = before.cleared(i as int);
            assert(self@.kinds =~= want.kinds);
            assert(self@.masks =~= want.masks);
            assert(self@.versions =~= want.versions);
            assert forall|c: int| 0 <= c < want.cells.len() implies #[trigger] self@.cells[c] == want.cells[c] by {
                assert(self@.cells[c] =~= want.cells[c]);
            }
            assert(self@.cells =~= want.cells);
            assert forall|c: int, j: int| 0 <= c < want.cells.len() && 0 <= j < want.cap() implies (#[trigger] want.cells[c][j] is Some
                <==> has_bit(want.masks[j], c)) by {
                if j == i {
                    lemma_zero_mask(c as u64);
                }
            }
            assert forall|c: int, j: int| want.cells.len() <= c && 0 <= j < want.cap()
                implies !#[trigger] has_bit(want.masks[j], c) by {
                if j == i && 0 <= c < 64 {
                    lemma_zero_mask(c as u64);
                }
            }
            assert(self@ == want);
        }
        true
    }

    /// The live handle of the entity at `index`, if the index is in range.
    pub fn entity(&self, index: usize) -> (r: Option<Entity>)
        requires
            self.wf(),
        ensures
            r is Some <==> index < self@.cap(),
            r is Some ==> r->0.index == index && r->0.version == self@.versions[index as int],
    {
        if index < self.entities.len() {
            Some(Entity { index, version: self.entities[index].version })
        } else {
            None
        }
    }

    /// The presence mask of the entity at `index`, if the index is in range.
    pub fn mask(&self, index: usize) -> (r: Option<u64>)
        requires
            self.wf(),
        ensures
            r is Some <==> index < self@.cap(),
            r is Some ==> r->0 == self@.masks[index as int],
    {
        if index < self.entities.len() {
            Some(self.entities[index].mask)
        } else {
            None
        }
    }

    /// How many entities the store holds.
    pub fn capacity(&self) -> (r: usize)
        ensures
            r == self@.cap(),
    {
        self.entities.len()
    }

    /// How many kinds are registered.
    pub fn kind_count(&self) -> (r: usize)
        ensures
            r == self@.kinds.len(),
    {
        self.kinds.len()
    }
}

} // verus!
