//! An index-addressed face of the component store, in which registering a
//! kind twice keeps its slot rather than failing.
use crate::store::{kind_of, Components, Entity, Error, StoreView, KIND_LIMIT};
use core::any::TypeId;
use vstd::prelude::*;

verus! {

/// A component store addressed by entity index alone: every index names its
/// entity as it is now.
pub struct ECS<T> {
    store: Components<T>,
}

impl<T> View for ECS<T> {
    type V = StoreView<T>;

    closed spec fn view(&self) -> StoreView<T> {
        self.store@
    }
}

/// The handle that index `k` stands for in a store in view `s`.
pub open spec fn handle_at<T>(s: StoreView<T>, k: usize) -> Entity {
    Entity { index: k, version: if k < s.cap() { s.versions[k as int] } else { 0 } }
}

impl<T> ECS<T> {
    pub open spec fn wf(&self) -> bool {
        self@.wf()
    }

    /// A store of `cap` entities with no components and no kinds registered.
    pub fn with_capacity(cap: usize) -> (r: Option<Self>)
        ensures
            r is Some,
            r->0.wf(),
            r->0@.cap() == cap,
            r->0@.kinds.len() == 0,
            forall|i: int| 0 <= i < cap ==> r->0@.masks[i] == 0 && r->0@.versions[i] == 0,
    {
        match Components::with_capacity(cap) {
            Some(store) => Some(ECS { store }),
            None => None,
        }
    }

    /// Registers `kind`, or keeps its slot if it is registered already;
    /// `None` where the registry is full.
    pub fn reg_kind(&mut self, kind: TypeId) -> (r: Option<()>)
        requires
            old(self).wf(),
        ensures
            final(self).wf(),
            r is Some <==> (old(self)@.registered(kind) || old(self)@.kinds.len() < KIND_LIMIT),
            old(self)@.registered(kind) || r is None ==> final(self)@ == old(self)@,
            !old(self)@.registered(kind) && r is Some ==> final(self)@ == old(self)@.with_kind(kind),
    {
        match self.store.reg_kind(kind) {
            Ok(_) => Some(()),
            Err(Error::AlreadyRegistered) => Some(()),
            Err(Error::RegistryFull) => None,
        }
    }

    /// Registers the type `C`, or keeps its slot if it is registered already.
    pub fn reg<C: 'static>(&mut self) -> (r: Option<()>)
        requires
            old(self).wf(),
        ensures
            final(self).wf(),
            exists|kind: TypeId|
                {
                    &&& r is Some <==> (old(self)@.registered(kind) || old(self)@.kinds.len()
                        < KIND_LIMIT)
                    &&& old(self)@.registered(kind) || r is None ==> final(self)@ == old(self)@
                    &&& !old(self)@.registered(kind) && r is Some ==> final(self)@ == old(
                        self,
                    )@.with_kind(kind)
                },
    {
        self.reg_kind(kind_of::<C>())
    }

    /// The component of `kind` held by the entity at index `k`.
    pub fn get_kind(&self, kind: &TypeId, k: usize) -> (r: Option<&T>)
        requires
            self.wf(),
        ensures
            match r {
                Some(v) => self@.component(*kind, handle_at(self@, k)) == Some(*v),
                None => self@.component(*kind, handle_at(self@, k)) is None,
            },
    {
        let e = match self.store.entity(k) {
            Some(e) => e,
            None => Entity::new(k, 0),
        };
        self.store.get_kind(kind, e)
    }

    /// The component of type `C` held by the entity at index `k`.
    pub fn get<C: 'static>(&self, k: usize) -> (r: Option<&T>)
        requires
            self.wf(),
        ensures
            exists|kind: TypeId|
                match r {
                    Some(v) => self@.component(kind, handle_at(self@, k)) == Some(*v),
                    None => self@.component(kind, handle_at(self@, k)) is None,
                },
    {
        let kind = kind_of::<C>();
        self.get_kind(&kind, k)
    }

    /// Hands the component of `kind` held by the entity at index `k` to `f`,
    /// and keeps what `f` returns.
    pub fn modify_kind<F: FnOnce(Option<T>) -> Option<T>>(&mut self, kind: &TypeId, k: usize, f: F)
        requires
            old(self).wf(),
            f.requires((old(self)@.component(*kind, handle_at(old(self)@, k)),)),
        ensures
            final(self).wf(),
            old(self)@.modifies(*kind, handle_at(old(self)@, k), f, final(self)@),
    {
        let e = match self.store.entity(k) {
            Some(e) => e,
            None => Entity::new(k, 0),
        };
        self.store.modify_kind(kind, e, f)
    }

    /// Hands the component of type `C` held by the entity at index `k` to
    /// `f`, and keeps what `f` returns.
    pub fn modify<C: 'static, F: FnOnce(Option<T>) -> Option<T>>(&mut self, k: usize, f: F)
        requires
            old(self).wf(),
            forall|c: Option<T>| f.requires((c,)),
        ensures
            final(self).wf(),
            exists|kind: TypeId| old(self)@.modifies(kind, handle_at(old(self)@, k), f, final(self)@),
    {
        let kind = kind_of::<C>();
        self.modify_kind(&kind, k, f)
    }
}

} // verus!
