//! The composition context: which entity is the current structural parent,
//! which scope is the current recomposition scope, and which entities each
//! scope has emitted.

use vstd::prelude::*;
use std::collections::HashMap;
use crate::runtime::error::CompositionError;
use crate::runtime::ids::{EntityId, ScopeId};
use crate::runtime::keyed::{
    by_entity, by_scope, lemma_by_entity_empty, lemma_by_entity_insert, lemma_by_entity_remove,
    lemma_by_scope_empty, lemma_by_scope_insert, lemma_by_scope_remove,
};

verus! {

broadcast use vstd::std_specs::hash::group_hash_axioms;

/// Where the renderer has to put a newly spawned entity.
#[derive(Clone, Copy, Debug, PartialEq, Eq, Structural)]
pub enum Placement {
    /// The entity becomes a child of this entity.
    ChildOf(EntityId),
    /// The entity has no parent: it is tagged as a composition root, which a
    /// full recomposition despawns.
    CompositionRoot,
}

/// State of one composition pass and the record of what scopes own.
pub struct CompositionContext {
    parent_stack: Vec<EntityId>,
    scope_stack: Vec<ScopeId>,
    active: bool,
    scope_root_entities: HashMap<u64, EntityId>,
    scope_all_entities: HashMap<u64, Vec<EntityId>>,
    entity_scopes: HashMap<u64, ScopeId>,
}

/// The entities recorded for `scope` in `owned`, none where it has no entry.
pub open spec fn entities_of(owned: Map<ScopeId, Seq<EntityId>>, scope: ScopeId) -> Seq<EntityId> {
    if owned.contains_key(scope) {
        owned[scope]
    } else {
        Seq::empty()
    }
}

/// `map` without the entries of the entities in `gone`.
pub open spec fn without_entities(map: Map<EntityId, ScopeId>, gone: Seq<EntityId>) -> Map<
    EntityId,
    ScopeId,
> {
    map.remove_keys(gone.to_set())
}

/// The entities that some scope of `scopes` owns according to `owned`.
pub open spec fn owned_by_any(owned: Map<ScopeId, Seq<EntityId>>, scopes: Set<ScopeId>) -> Set<EntityId> {
    Set::new(
        |e: EntityId|
            exists|s: ScopeId| #[trigger] scopes.contains(s) && entities_of(owned, s).contains(e),
    )
}

/// The placement of an entity that is spawned under the parent stack `parents`.
pub open spec fn placement_under(parents: Seq<EntityId>) -> Placement {
    if parents.len() > 0 {
        Placement::ChildOf(parents.last())
    } else {
        Placement::CompositionRoot
    }
}

/// The top of a stack, if it has one.
pub open spec fn top_of<A>(stack: Seq<A>) -> Option<A> {
    if stack.len() > 0 {
        Some(stack.last())
    } else {
        None
    }
}

impl CompositionContext {
    /// The stack of structural parents, topmost last.
    pub closed spec fn parents(&self) -> Seq<EntityId> {
        self.parent_stack@
    }

    /// The stack of active scopes, topmost last.
    pub closed spec fn scopes(&self) -> Seq<ScopeId> {
        self.scope_stack@
    }

    /// Whether a composition pass is running.
    pub closed spec fn active(&self) -> bool {
        self.active
    }

    /// For each scope, the first entity that was emitted while it was topmost.
    pub closed spec fn first_entities(&self) -> Map<ScopeId, EntityId> {
        by_scope(self.scope_root_entities@)
    }

    /// For each scope, the entities that were emitted while it was topmost, in
    /// the order of emission.
    pub closed spec fn owned(&self) -> Map<ScopeId, Seq<EntityId>> {
        by_scope(self.scope_all_entities@.map_values(|v: Vec<EntityId>| v@))
    }

    /// For each recorded entity, the scope it was emitted in.
    pub closed spec fn entity_scopes(&self) -> Map<EntityId, ScopeId> {
        by_entity(self.entity_scopes@)
    }

    /// Neither stack holds anything and no pass is running.
    pub open spec fn idle(&self) -> bool {
        &&& !self.active()
        &&& self.parents().len() == 0
        &&& self.scopes().len() == 0
    }

    /// Both contexts agree on what scopes own.
    pub open spec fn same_ledger(&self, other: &CompositionContext) -> bool {
        &&& self.first_entities() == other.first_entities()
        &&& self.owned() == other.owned()
        &&& self.entity_scopes() == other.entity_scopes()
    }

    /// A context with empty stacks, no pass running and nothing recorded.
    pub fn new() -> (ctx: CompositionContext)
        ensures
            ctx.idle(),
            ctx.first_entities() == Map::<ScopeId, EntityId>::empty(),
            ctx.owned() == Map::<ScopeId, Seq<EntityId>>::empty(),
            ctx.entity_scopes() == Map::<EntityId, ScopeId>::empty(),
    {
        let ctx = CompositionContext {
            parent_stack: Vec::new(),
            scope_stack: Vec::new(),
            active: false,
            scope_root_entities: HashMap::new(),
            scope_all_entities: HashMap::new(),
            entity_scopes: HashMap::new(),
        };
        proof {
            lemma_by_scope_empty::<EntityId>();
            lemma_by_scope_empty::<Seq<EntityId>>();
            lemma_by_entity_empty::<ScopeId>();
            assert(ctx.scope_all_entities@.map_values(|v: Vec<EntityId>| v@) =~= Map::<
                u64,
                Seq<EntityId>,
            >::empty());
        }
        ctx
    }

    /// Starts a composition pass: both stacks are emptied and the context
    /// becomes active. What scopes own is kept.
    pub fn begin_composition(&mut self)
        ensures
            final(self).active(),
            final(self).parents() == Seq::<EntityId>::empty(),
            final(self).scopes() == Seq::<ScopeId>::empty(),
            final(self).same_ledger(old(self)),
    {
        self.parent_stack.clear();
        self.scope_stack.clear();
        self.active = true;
    }

    /// Starts a pass of an incremental recomposition. The stacks are empty at
    /// this point already, which the caller has to make sure of.
    pub fn begin_incremental_composition(&mut self)
        requires
            old(self).parents().len() == 0,
            old(self).scopes().len() == 0,
        ensures
            final(self).active(),
            final(self).parents() == old(self).parents(),
            final(self).scopes() == old(self).scopes(),
            final(self).same_ledger(old(self)),
    {
        self.active = true;
    }

    /// Ends the pass: both stacks are emptied and the context is no longer
    /// active, whatever state the pass left them in.
    pub fn end_composition(&mut self)
        ensures
            final(self).idle(),
            final(self).same_ledger(old(self)),
    {
        self.parent_stack.clear();
        self.scope_stack.clear();
        self.active = false;
    }

    /// Whether a composition pass is running.
    pub fn is_active(&self) -> (b: bool)
        ensures
            b == self.active(),
    {
        self.active
    }

    /// Whether no pass is running and both stacks are empty.
    pub fn is_idle(&self) -> (b: bool)
        ensures
            b == self.idle(),
    {
        !self.active && self.parent_stack.len() == 0 && self.scope_stack.len() == 0
    }

    /// The topmost scope, if any.
    pub fn current_scope_id(&self) -> (scope: Option<ScopeId>)
        ensures
            scope == top_of(self.scopes()),
    {
        let n = self.scope_stack.len();
        if n > 0 {
            Some(self.scope_stack[n - 1])
        } else {
            None
        }
    }

    /// The topmost parent, if any.
    pub fn get_current_parent(&self) -> (parent: Option<EntityId>)
        ensures
            parent == top_of(self.parents()),
    {
        let n = self.parent_stack.len();
        if n > 0 {
            Some(self.parent_stack[n - 1])
        } else {
            None
        }
    }

    /// Number of scopes on the scope stack.
    pub fn scope_depth(&self) -> (n: usize)
        ensures
            n == self.scopes().len(),
    {
        self.scope_stack.len()
    }

    /// Number of entities on the parent stack.
    pub fn parent_depth(&self) -> (n: usize)
        ensures
            n == self.parents().len(),
    {
        self.parent_stack.len()
    }

    /// Makes `scope` the topmost scope.
    pub fn enter_scope(&mut self, scope: ScopeId)
        ensures
            final(self).scopes() == old(self).scopes().push(scope),
            final(self).parents() == old(self).parents(),
            final(self).active() == old(self).active(),
            final(self).same_ledger(old(self)),
    {
        self.scope_stack.push(scope);
    }

    /// Removes the topmost scope. There has to be one: an exit without a
    /// matching enter is an error of the caller.
    pub fn exit_scope(&mut self)
        requires
            old(self).scopes().len() > 0,
        ensures
            final(self).scopes() == old(self).scopes().drop_last(),
            final(self).parents() == old(self).parents(),
            final(self).active() == old(self).active(),
            final(self).same_ledger(old(self)),
    {
        self.scope_stack.pop();
    }

    /// Makes `entity` the topmost parent.
    pub fn push_parent(&mut self, entity: EntityId)
        ensures
            final(self).parents() == old(self).parents().push(entity),
            final(self).scopes() == old(self).scopes(),
            final(self).active() == old(self).active(),
            final(self).same_ledger(old(self)),
    {
        self.parent_stack.push(entity);
    }

    /// Makes `entity` the parent under which a scope is rebuilt.
    pub fn set_parent_for_scope(&mut self, entity: EntityId)
        ensures
            final(self).parents() == old(self).parents().push(entity),
            final(self).scopes() == old(self).scopes(),
            final(self).active() == old(self).active(),
            final(self).same_ledger(old(self)),
    {
        self.push_parent(entity);
    }

    /// Removes the topmost parent. There has to be one: a pop without a
    /// matching push is an error of the caller.
    pub fn pop_parent(&mut self)
        requires
            old(self).parents().len() > 0,
        ensures
            final(self).parents() == old(self).parents().drop_last(),
            final(self).scopes() == old(self).scopes(),
            final(self).active() == old(self).active(),
            final(self).same_ledger(old(self)),
    {
        self.parent_stack.pop();
    }

    /// Empties the parent stack.
    pub fn clear_parent_stack(&mut self)
        ensures
            final(self).parents() == Seq::<EntityId>::empty(),
            final(self).scopes() == old(self).scopes(),
            final(self).active() == old(self).active(),
            final(self).same_ledger(old(self)),
    {
        self.parent_stack.clear();
    }

    /// Whether the two stacks hold exactly `parents` and `scopes`.
    pub fn stacks_are(&self, parents: &Vec<EntityId>, scopes: &Vec<ScopeId>) -> (b: bool)
        ensures
            b == (self.parents() == parents@ && self.scopes() == scopes@),
    {
        if self.parent_stack.len() != parents.len() || self.scope_stack.len() != scopes.len() {
            return false;
        }
        let mut i: usize = 0;
        while i < parents.len()
            invariant
                i <= parents.len(),
                self.parent_stack@.len() == parents@.len(),
                forall|j: int| 0 <= j < i ==> self.parent_stack@[j] == parents@[j],
            decreases parents.len() - i,
        {
            if self.parent_stack[i] != parents[i] {
                return false;
            }
            i = i + 1;
        }
        let mut k: usize = 0;
        while k < scopes.len()
            invariant
                k <= scopes.len(),
                self.scope_stack@.len() == scopes@.len(),
                self.parent_stack@ =~= parents@,
                forall|j: int| 0 <= j < k ==> self.scope_stack@[j] == scopes@[j],
            decreases scopes.len() - k,
        {
            if self.scope_stack[k] != scopes[k] {
                return false;
            }
            k = k + 1;
        }
        assert(self.scope_stack@ =~= scopes@);
        true
    }

    /// A copy of the parent stack, topmost last.
    pub fn parent_snapshot(&self) -> (parents: Vec<EntityId>)
        ensures
            parents@ == self.parents(),
    {
        let mut parents: Vec<EntityId> = Vec::new();
        let mut i: usize = 0;
        while i < self.parent_stack.len()
            invariant
                i <= self.parent_stack.len(),
                parents@ == self.parent_stack@.take(i as int),
            decreases self.parent_stack.len() - i,
        {
            parents.push(self.parent_stack[i]);
            assert(self.parent_stack@.take(i + 1) =~= self.parent_stack@.take(i as int).push(
                self.parent_stack@[i as int],
            ));
            i = i + 1;
        }
        assert(self.parent_stack@.take(i as int) =~= self.parent_stack@);
        parents
    }

    /// A copy of the scope stack, topmost last.
    pub fn scope_snapshot(&self) -> (scopes: Vec<ScopeId>)
        ensures
            scopes@ == self.scopes(),
    {
        let mut scopes: Vec<ScopeId> = Vec::new();
        let mut i: usize = 0;
        while i < self.scope_stack.len()
            invariant
                i <= self.scope_stack.len(),
                scopes@ == self.scope_stack@.take(i as int),
            decreases self.scope_stack.len() - i,
        {
            scopes.push(self.scope_stack[i]);
            assert(self.scope_stack@.take(i + 1) =~= self.scope_stack@.take(i as int).push(
                self.scope_stack@[i as int],
            ));
            i = i + 1;
        }
        assert(self.scope_stack@.take(i as int) =~= self.scope_stack@);
        scopes
    }

    /// Records that `entity` was emitted while `scope` was topmost: it is
    /// appended to what the scope owns, becomes the scope's first entity if
    /// the scope had none, and its own scope is noted.
    pub fn register_entity_scope(&mut self, entity: EntityId, scope: ScopeId)
        ensures
            final(self).entity_scopes() == old(self).entity_scopes().insert(entity, scope),
            final(self).owned() == old(self).owned().insert(
                scope,
                entities_of(old(self).owned(), scope).push(entity),
            ),
            final(self).first_entities() == (if old(self).first_entities().contains_key(scope) {
                old(self).first_entities()
            } else {
                old(self).first_entities().insert(scope, entity)
            }),
            final(self).parents() == old(self).parents(),
            final(self).scopes() == old(self).scopes(),
            final(self).active() == old(self).active(),
    {
        self.entity_scopes.insert(entity.0, scope);
        let mut list = match self.scope_all_entities.remove(&scope.0) {
            Some(list) => list,
            None => Vec::new(),
        };
        list.push(entity);
        self.scope_all_entities.insert(scope.0, list);
        if !self.scope_root_entities.contains_key(&scope.0) {
            self.scope_root_entities.insert(scope.0, entity);
        }
        proof {
            lemma_by_entity_insert(old(self).entity_scopes@, entity, scope);
            lemma_by_scope_insert(old(self).scope_root_entities@, scope, entity);
            let f = |v: Vec<EntityId>| v@;
            let before = old(self).scope_all_entities@.map_values(f);
            let after = self.scope_all_entities@.map_values(f);
            assert(after =~= before.insert(scope.0, entities_of(by_scope(before), scope).push(entity)));
            lemma_by_scope_insert(before, scope, entities_of(by_scope(before), scope).push(entity));
            assert(self.first_entities() =~= (if old(self).first_entities().contains_key(scope) {
                old(self).first_entities()
            } else {
                old(self).first_entities().insert(scope, entity)
            }));
        }
    }

    /// The first entity that was emitted in `scope`, if any was.
    pub fn get_scope_root_entity(&self, scope: ScopeId) -> (entity: Option<EntityId>)
        ensures
            entity == (if self.first_entities().contains_key(scope) {
                Some(self.first_entities()[scope])
            } else {
                None
            }),
    {
        match self.scope_root_entities.get(&scope.0) {
            Some(e) => Some(*e),
            None => None,
        }
    }

    /// The entities that `scope` owns, in the order of emission.
    pub fn get_scope_entities(&self, scope: ScopeId) -> (entities: Vec<EntityId>)
        ensures
            entities@ == entities_of(self.owned(), scope),
    {
        match self.scope_all_entities.get(&scope.0) {
            Some(list) => {
                let mut entities: Vec<EntityId> = Vec::new();
                let mut i: usize = 0;
                while i < list.len()
                    invariant
                        i <= list.len(),
                        entities@ == list@.take(i as int),
                    decreases list.len() - i,
                {
                    entities.push(list[i]);
                    assert(list@.take(i + 1) =~= list@.take(i as int).push(list@[i as int]));
                    i = i + 1;
                }
                assert(list@.take(i as int) =~= list@);
                entities
            },
            None => Vec::new(),
        }
    }

    /// Forgets what `scope` owns: its list, its first entity, and the scope
    /// that was noted for each entity of the list. The scope itself stays
    /// where it is on the stack and in any registry.
    pub fn clear_scope_mapping(&mut self, scope: ScopeId)
        ensures
            final(self).first_entities() == old(self).first_entities().remove(scope),
            final(self).owned() == old(self).owned().remove(scope),
            final(self).entity_scopes() == without_entities(
                old(self).entity_scopes(),
                entities_of(old(self).owned(), scope),
            ),
            final(self).parents() == old(self).parents(),
            final(self).scopes() == old(self).scopes(),
            final(self).active() == old(self).active(),
    {
        self.scope_root_entities.remove(&scope.0);
        let removed = self.scope_all_entities.remove(&scope.0);
        proof {
            lemma_by_scope_remove(old(self).scope_root_entities@, scope);
            let f = |v: Vec<EntityId>| v@;
            let before = old(self).scope_all_entities@.map_values(f);
            let after = self.scope_all_entities@.map_values(f);
            assert(after =~= before.remove(scope.0));
            lemma_by_scope_remove(before, scope);
        }
        match removed {
            Some(list) => {
                let mut i: usize = 0;
                while i < list.len()
                    invariant
                        i <= list.len(),
                        self.parent_stack == old(self).parent_stack,
                        self.scope_stack == old(self).scope_stack,
                        self.active == old(self).active,
                        self.first_entities() == old(self).first_entities().remove(scope),
                        self.owned() == old(self).owned().remove(scope),
                        self.entity_scopes() == without_entities(
                            old(self).entity_scopes(),
                            list@.take(i as int),
                        ),
                    decreases list.len() - i,
                {
                    let ghost mid = self.entity_scopes@;
                    self.entity_scopes.remove(&list[i].0);
                    proof {
                        lemma_by_entity_remove(mid, list@[i as int]);
                        assert(list@.take(i + 1) =~= list@.take(i as int).push(list@[i as int]));
                        list@.take(i as int).lemma_push_to_set_commute(list@[i as int]);
                        assert(self.entity_scopes() =~= without_entities(
                            old(self).entity_scopes(),
                            list@.take(i + 1),
                        ));
                    }
                    i = i + 1;
                }
                assert(list@.take(i as int) =~= list@);
            },
            None => {
                assert(entities_of(old(self).owned(), scope).to_set() =~= Set::<EntityId>::empty());
                assert(self.entity_scopes() =~= without_entities(
                    old(self).entity_scopes(),
                    entities_of(old(self).owned(), scope),
                ));
            },
        }
    }

    /// Forgets what each scope of `scopes` owns.
    pub fn clear_scope_mappings(&mut self, scopes: &Vec<ScopeId>)
        ensures
            final(self).first_entities() == old(self).first_entities().remove_keys(scopes@.to_set()),
            final(self).owned() == old(self).owned().remove_keys(scopes@.to_set()),
            final(self).entity_scopes() == old(self).entity_scopes().remove_keys(
                owned_by_any(old(self).owned(), scopes@.to_set()),
            ),
            final(self).parents() == old(self).parents(),
            final(self).scopes() == old(self).scopes(),
            final(self).active() == old(self).active(),
    {
        let mut i: usize = 0;
        proof {
            assert(scopes@.take(0).to_set() =~= Set::<ScopeId>::empty());
            assert(owned_by_any(old(self).owned(), Set::<ScopeId>::empty()) =~= Set::<EntityId>::empty());
            assert(self.first_entities() =~= old(self).first_entities().remove_keys(Set::<ScopeId>::empty()));
            assert(self.owned() =~= old(self).owned().remove_keys(Set::<ScopeId>::empty()));
            assert(self.entity_scopes() =~= old(self).entity_scopes().remove_keys(Set::<EntityId>::empty()));
        }
        while i < scopes.len()
            invariant
                i <= scopes.len(),
                self.parents() == old(self).parents(),
                self.scopes() == old(self).scopes(),
                self.active() == old(self).active(),
                self.first_entities() == old(self).first_entities().remove_keys(
                    scopes@.take(i as int).to_set(),
                ),
                self.owned() == old(self).owned().remove_keys(scopes@.take(i as int).to_set()),
                self.entity_scopes() == old(self).entity_scopes().remove_keys(
                    owned_by_any(old(self).owned(), scopes@.take(i as int).to_set()),
                ),
            decreases scopes.len() - i,
        {
            let ghost mid = *self;
            let ghost done = scopes@.take(i as int).to_set();
            let scope = scopes[i];
            self.clear_scope_mapping(scope);
            proof {
                scopes@.take(i as int).lemma_push_to_set_commute(scope);
                assert(scopes@.take(i + 1) =~= scopes@.take(i as int).push(scope));
                let next = scopes@.take(i + 1).to_set();
                assert(next =~= done.insert(scope));
                assert(self.first_entities() =~= old(self).first_entities().remove_keys(next));
                assert(self.owned() =~= old(self).owned().remove_keys(next));
                let gone = entities_of(mid.owned(), scope);
                assert(owned_by_any(old(self).owned(), next) =~= owned_by_any(old(self).owned(), done)
                    + gone.to_set()) by {
                    assert forall|e: EntityId|
                        owned_by_any(old(self).owned(), next).contains(e) <==> (owned_by_any(
                            old(self).owned(),
                            done,
                        ) + gone.to_set()).contains(e) by {
                        if owned_by_any(old(self).owned(), next).contains(e) {
                            let s = choose|s: ScopeId| #[trigger]
                                next.contains(s) && entities_of(old(self).owned(), s).contains(e);
                            if s == scope {
                                if done.contains(scope) {
                                    assert(done.contains(s) && entities_of(old(self).owned(), s).contains(e));
                                } else {
                                    assert(gone == entities_of(old(self).owned(), scope));
                                }
                            } else {
                                assert(done.contains(s) && entities_of(old(self).owned(), s).contains(e));
                            }
                        }
                        if owned_by_any(old(self).owned(), done).contains(e) {
                            let s = choose|s: ScopeId| #[trigger]
                                done.contains(s) && entities_of(old(self).owned(), s).contains(e);
                            assert(next.contains(s) && entities_of(old(self).owned(), s).contains(e));
                        }
                        if gone.to_set().contains(e) {
                            assert(gone.len() > 0);
                            assert(mid.owned().contains_key(scope));
                            assert(!done.contains(scope));
                            assert(next.contains(scope) && entities_of(old(self).owned(), scope).contains(e));
                        }
                    }
                }
                assert(self.entity_scopes() =~= old(self).entity_scopes().remove_keys(
                    owned_by_any(old(self).owned(), next),
                ));
            }
            i = i + 1;
        }
        assert(scopes@.take(i as int) =~= scopes@);
    }

    /// Takes note of an entity that the renderer has just spawned and says
    /// where it belongs: under the topmost parent, or among the composition
    /// roots when there is no parent. With a scope on the scope stack the
    /// entity is recorded as owned by the topmost one. Outside a pass nothing
    /// is recorded.
    pub fn spawn_child(&mut self, entity: EntityId) -> (placed: Result<Placement, CompositionError>)
        ensures
            !old(self).active() ==> placed == Err::<Placement, CompositionError>(
                CompositionError::NotComposing,
            ) && *final(self) == *old(self),
            old(self).active() ==> placed == Ok::<Placement, CompositionError>(
                placement_under(old(self).parents()),
            ),
            old(self).active() && old(self).scopes().len() == 0 ==> *final(self) == *old(self),
            old(self).active() && old(self).scopes().len() > 0 ==> {
                let scope = old(self).scopes().last();
                &&& final(self).entity_scopes() == old(self).entity_scopes().insert(entity, scope)
                &&& final(self).owned() == old(self).owned().insert(
                    scope,
                    entities_of(old(self).owned(), scope).push(entity),
                )
                &&& final(self).first_entities() == (if old(self).first_entities().contains_key(
                    scope,
                ) {
                    old(self).first_entities()
                } else {
                    old(self).first_entities().insert(scope, entity)
                })
                &&& final(self).parents() == old(self).parents()
                &&& final(self).scopes() == old(self).scopes()
                &&& final(self).active()
            },
    {
        if !self.active {
            return Err(CompositionError::NotComposing);
        }
        match self.current_scope_id() {
            Some(scope) => {
                self.register_entity_scope(entity, scope);
            },
            None => {},
        }
        match self.get_current_parent() {
            Some(parent) => Ok(Placement::ChildOf(parent)),
            None => Ok(Placement::CompositionRoot),
        }
    }
}

} // verus!
