//! Identifiers of scopes and of renderer entities.

use vstd::prelude::*;

verus! {

/// Identifier of a recomposition scope. `ScopeId(0)` is the application-level
/// root scope; every other identifier comes from a [`ScopeIds`] generator.
#[derive(Clone, Copy, Debug, PartialEq, Eq, Structural, Hash)]
pub struct ScopeId(pub u64);

/// Identifier of an entity of the renderer, as plain bits.
#[derive(Clone, Copy, Debug, PartialEq, Eq, Structural, Hash)]
pub struct EntityId(pub u64);

/// Monotonic generator of scope identifiers. It never hands out the root
/// identifier and never hands out the same identifier twice.
pub struct ScopeIds {
    next: u64,
}

impl ScopeId {
    /// The identifier that is reserved for the root scope.
    pub open spec fn spec_root() -> ScopeId {
        ScopeId(0)
    }

    /// The root scope identifier.
    #[verifier::when_used_as_spec(spec_root)]
    pub fn root() -> (id: ScopeId)
        ensures
            id == ScopeId(0),
    {
        ScopeId(0)
    }

    /// Takes the next unused identifier from `ids`.
    pub fn new(ids: &mut ScopeIds) -> (id: ScopeId)
        requires
            old(ids).wf(),
            !old(ids).exhausted(),
        ensures
            final(ids).wf(),
            id.0 == old(ids).upcoming(),
            id != ScopeId::root(),
            final(ids).upcoming() == old(ids).upcoming() + 1,
    {
        ids.fresh()
    }

    /// Whether this is the root scope.
    pub fn is_root(&self) -> (b: bool)
        ensures
            b == (*self == ScopeId::root()),
    {
        self.0 == 0
    }
}

impl ScopeIds {
    /// The value of the next identifier that will be handed out.
    pub closed spec fn upcoming(&self) -> u64 {
        self.next
    }

    /// The generator never returns to the root identifier.
    pub closed spec fn wf(&self) -> bool {
        self.next >= 1
    }

    /// No identifier is left once the counter has reached the top of `u64`.
    pub open spec fn exhausted(&self) -> bool {
        self.upcoming() == u64::MAX
    }

    /// Whether `id` has been handed out already, or is the root.
    pub open spec fn issued(&self, id: ScopeId) -> bool {
        id.0 < self.upcoming()
    }

    /// A generator whose first identifier is 1.
    pub fn new() -> (ids: ScopeIds)
        ensures
            ids.wf(),
            ids.upcoming() == 1,
    {
        ScopeIds { next: 1 }
    }

    /// Whether another identifier can still be taken.
    pub fn has_next(&self) -> (b: bool)
        ensures
            b == !self.exhausted(),
    {
        self.next < u64::MAX
    }

    /// Hands out the next identifier and advances the counter by one.
    pub fn fresh(&mut self) -> (id: ScopeId)
        requires
            old(self).wf(),
            !old(self).exhausted(),
        ensures
            final(self).wf(),
            id.0 == old(self).upcoming(),
            id != ScopeId::root(),
            !old(self).issued(id),
            final(self).issued(id),
            final(self).upcoming() == old(self).upcoming() + 1,
    {
        let id = ScopeId(self.next);
        self.next = self.next + 1;
        id
    }
}

} // verus!
