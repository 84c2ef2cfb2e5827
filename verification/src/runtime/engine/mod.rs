//! The runtime: identifiers, context, registry, dirty set and cells in one
//! value, with the operations that composables and state handles use.

use vstd::prelude::*;
use crate::runtime::cells::{outside_arena, StateCells, StateId};
use crate::runtime::context::{entities_of, placement_under, top_of, without_entities, CompositionContext, Placement};
use crate::runtime::dirty::{scope_set, DirtySet};
use crate::runtime::error::CompositionError;
use crate::runtime::ids::{EntityId, ScopeId, ScopeIds};
use crate::runtime::registry::{registered, ScopeInfo, ScopeRegistry};

pub mod driver;
pub mod reap;
pub mod laws;
pub mod state;
pub mod compose;

verus! {

/// Where the frame driver stands.
#[derive(Clone, Copy, Debug, PartialEq, Eq, Structural)]
pub enum Phase {
    /// No pass is running and no frame is open.
    Idle,
    /// The initial composition is running under the root scope.
    Initial,
    /// A full recomposition is running under the root scope.
    Full,
    /// A granular frame is open; no scope is being rebuilt right now.
    Granular,
    /// The given scope is being rebuilt under the given host entity.
    Rebuilding(ScopeId, EntityId),
}

/// The state of the composition runtime. `C` is the content of a scope:
/// whatever the host needs in order to emit the scope's children again.
pub struct Runtime<C> {
    ids: ScopeIds,
    context: CompositionContext,
    registry: ScopeRegistry<C>,
    dirty: DirtySet,
    cells: StateCells,
    initialized: bool,
    phase: Phase,
    pending: Vec<ScopeId>,
}

/// What a composable has entered and has to leave again: the scope, and the
/// two stacks as they stood right after entering.
pub struct OpenScope {
    scope: ScopeId,
    container: Option<EntityId>,
    parents: Vec<EntityId>,
    scopes: Vec<ScopeId>,
}

/// A stack without its top; an empty stack stays empty.
pub open spec fn popped<A>(stack: Seq<A>) -> Seq<A> {
    if stack.len() > 0 {
        stack.drop_last()
    } else {
        stack
    }
}

/// The scope that a read or an emission is attributed to under the scope
/// stack `scopes`: the topmost scope, or the root scope under an empty stack.
pub open spec fn scope_in_charge(scopes: Seq<ScopeId>) -> ScopeId {
    if scopes.len() > 0 {
        scopes.last()
    } else {
        ScopeId::root()
    }
}

impl OpenScope {
    /// The entered scope is on the scope stack, and the host of a container
    /// on the parent stack.
    #[verifier::type_invariant]
    spec fn entered(self) -> bool {
        &&& self.scopes@.len() > 0
        &&& self.container is Some ==> self.parents@.len() > 0
    }

    /// The scope that was entered.
    pub closed spec fn scope(&self) -> ScopeId {
        self.scope
    }

    /// The host entity that was pushed as parent, for a scoped container.
    pub closed spec fn container(&self) -> Option<EntityId> {
        self.container
    }

    /// The parent stack right after entering.
    pub closed spec fn parents(&self) -> Seq<EntityId> {
        self.parents@
    }

    /// The scope stack right after entering.
    pub closed spec fn scopes(&self) -> Seq<ScopeId> {
        self.scopes@
    }

    /// The parent stack to which leaving returns.
    pub open spec fn parents_outside(&self) -> Seq<EntityId> {
        if self.container() is Some {
            popped(self.parents())
        } else {
            self.parents()
        }
    }

    /// The scope stack to which leaving returns.
    pub open spec fn scopes_outside(&self) -> Seq<ScopeId> {
        popped(self.scopes())
    }

    /// The scope that was entered.
    pub fn scope_id(&self) -> (scope: ScopeId)
        ensures
            scope == self.scope(),
    {
        self.scope
    }
}

impl<C> Runtime<C> {
    /// The generator of scope identifiers.
    pub closed spec fn ids(&self) -> ScopeIds {
        self.ids
    }

    /// The composition context.
    pub closed spec fn context(&self) -> CompositionContext {
        self.context
    }

    /// The registered scopes.
    pub closed spec fn registry(&self) -> Map<ScopeId, ScopeInfo<C>> {
        self.registry@
    }

    /// The scopes that await recomposition.
    pub closed spec fn dirty(&self) -> Set<ScopeId> {
        self.dirty@
    }

    /// The record of reactive cells.
    pub closed spec fn cells(&self) -> StateCells {
        self.cells
    }

    /// Whether the initial composition has run.
    pub closed spec fn initialized(&self) -> bool {
        self.initialized
    }

    /// Where the frame driver stands.
    pub closed spec fn phase(&self) -> Phase {
        self.phase
    }

    /// The scopes of the open granular frame that still wait for their
    /// rebuild; the next one is the last.
    pub closed spec fn pending(&self) -> Seq<ScopeId> {
        self.pending@
    }

    /// The parts of the runtime are well formed.
    pub closed spec fn wf(&self) -> bool {
        &&& self.ids.wf()
        &&& self.cells.wf()
    }

    /// Everything but the context is as in `other`.
    pub open spec fn same_but_context(&self, other: &Runtime<C>) -> bool {
        &&& self.ids() == other.ids()
        &&& self.registry() == other.registry()
        &&& self.dirty() == other.dirty()
        &&& self.cells() == other.cells()
        &&& self.same_driver(other)
    }

    /// Everything but the registry and the cells is as in `other`.
    pub open spec fn same_but_scopes(&self, other: &Runtime<C>) -> bool {
        &&& self.ids() == other.ids()
        &&& self.context() == other.context()
        &&& self.dirty() == other.dirty()
        &&& self.same_driver(other)
    }

    /// Everything but the dirty set is as in `other`.
    pub open spec fn same_but_dirty(&self, other: &Runtime<C>) -> bool {
        &&& self.ids() == other.ids()
        &&& self.context() == other.context()
        &&& self.registry() == other.registry()
        &&& self.cells() == other.cells()
        &&& self.same_driver(other)
    }

    /// The frame driver stands as in `other`.
    pub open spec fn same_driver(&self, other: &Runtime<C>) -> bool {
        &&& self.initialized() == other.initialized()
        &&& self.phase() == other.phase()
        &&& self.pending() == other.pending()
    }

    /// A runtime in which nothing has happened yet.
    pub fn new() -> (rt: Runtime<C>)
        ensures
            rt.wf(),
            rt.ids().upcoming() == 1,
            rt.context().idle(),
            rt.context().owned() == Map::<ScopeId, Seq<EntityId>>::empty(),
            rt.registry() == Map::<ScopeId, ScopeInfo<C>>::empty(),
            rt.dirty() == Set::<ScopeId>::empty(),
            rt.cells().arenas() == Map::<StateId, Option<ScopeId>>::empty(),
            rt.cells().subscribers() == Map::<StateId, Set<ScopeId>>::empty(),
            rt.cells().upcoming() == 0,
            !rt.initialized(),
            rt.phase() == Phase::Idle,
            rt.pending() == Seq::<ScopeId>::empty(),
    {
        Runtime {
            ids: ScopeIds::new(),
            context: CompositionContext::new(),
            registry: ScopeRegistry::new(),
            dirty: DirtySet::new(),
            cells: StateCells::new(),
            initialized: false,
            phase: Phase::Idle,
            pending: Vec::new(),
        }
    }

    /// Read access to the composition context.
    pub fn composition_context(&self) -> (context: &CompositionContext)
        ensures
            *context == self.context(),
    {
        &self.context
    }

    /// Read access to the record of cells.
    pub fn state_cells(&self) -> (cells: &StateCells)
        ensures
            *cells == self.cells(),
    {
        &self.cells
    }

    /// Whether a scoped container can still get an identifier.
    pub fn has_fresh_scope_id(&self) -> (b: bool)
        ensures
            b == !self.ids().exhausted(),
    {
        self.ids.has_next()
    }

    /// Whether a state can still be created.
    pub fn has_fresh_state_id(&self) -> (b: bool)
        ensures
            b == !self.cells().exhausted(),
    {
        self.cells.has_next()
    }

    /// Whether the initial composition has run.
    pub fn is_initialized(&self) -> (b: bool)
        ensures
            b == self.initialized(),
    {
        self.initialized
    }

    /// Where the frame driver stands.
    pub fn current_phase(&self) -> (phase: Phase)
        ensures
            phase == self.phase(),
    {
        self.phase
    }

    // ---- dirty set ----

    /// Marks `scope_id` as awaiting recomposition.
    pub fn mark_scope_dirty(&mut self, scope_id: ScopeId)
        ensures
            final(self).dirty() == old(self).dirty().insert(scope_id),
            final(self).same_but_dirty(old(self)),
            final(self).wf() == old(self).wf(),
    {
        self.dirty.mark(scope_id);
    }

    /// Whether any scope awaits recomposition.
    pub fn has_dirty_scopes(&self) -> (b: bool)
        ensures
            b == (self.dirty() != Set::<ScopeId>::empty()),
    {
        self.dirty.non_empty()
    }

    /// Empties the dirty set and returns what it held, each scope once.
    pub fn take_dirty_scopes(&mut self) -> (drained: Vec<ScopeId>)
        ensures
            final(self).dirty() == Set::<ScopeId>::empty(),
            drained@.no_duplicates(),
            scope_set(drained@) == old(self).dirty(),
            final(self).same_but_dirty(old(self)),
            final(self).wf() == old(self).wf(),
    {
        self.dirty.drain()
    }

    /// Marks the root scope dirty, which asks for a full recomposition.
    pub fn invalidate(&mut self)
        ensures
            final(self).dirty() == old(self).dirty().insert(ScopeId::root()),
            final(self).same_but_dirty(old(self)),
            final(self).wf() == old(self).wf(),
    {
        self.dirty.mark(ScopeId::root());
    }

    // ---- registry ----

    /// Registers `scope_id`. A scope that is not registered yet gets an entry
    /// with the given content and enclosing scope and without a host entity.
    /// A scope that is registered already gets the new content and keeps its
    /// enclosing scope and its host, which is how a scope that is emitted
    /// again has its content refreshed.
    pub fn register_scope(&mut self, scope_id: ScopeId, content_fn: C, parent_scope: Option<ScopeId>)
        ensures
            final(self).registry() == old(self).registry().insert(
                scope_id,
                registered(old(self).registry(), scope_id, content_fn, parent_scope),
            ),
            final(self).cells() == old(self).cells(),
            final(self).same_but_scopes(old(self)),
            final(self).wf() == old(self).wf(),
    {
        self.registry.register_scope(scope_id, content_fn, parent_scope);
    }

    /// Sets the host entity of a registered scope; nothing happens for an
    /// unknown scope.
    pub fn set_scope_root_entity(&mut self, scope_id: ScopeId, entity: EntityId)
        ensures
            final(self).registry() == (if old(self).registry().contains_key(scope_id) {
                old(self).registry().insert(
                    scope_id,
                    (ScopeInfo {
                        content_fn: old(self).registry()[scope_id].content_fn,
                        parent_scope: old(self).registry()[scope_id].parent_scope,
                        root_entity: Some(entity),
                    }),
                )
            } else {
                old(self).registry()
            }),
            final(self).cells() == old(self).cells(),
            final(self).same_but_scopes(old(self)),
            final(self).wf() == old(self).wf(),
    {
        self.registry.set_scope_root_entity(scope_id, entity);
    }

    /// The entry of `scope_id`, if it is registered.
    pub fn get_scope_info(&self, scope_id: ScopeId) -> (info: Option<&ScopeInfo<C>>)
        ensures
            info == (if self.registry().contains_key(scope_id) {
                Some(&self.registry()[scope_id])
            } else {
                None
            }),
    {
        self.registry.get_scope_info(scope_id)
    }

    /// Removes `scope_id` from the registry and drops its arena, which
    /// releases every state that was created while the scope was topmost.
    pub fn unregister_scope(&mut self, scope_id: ScopeId)
        requires
            old(self).wf(),
        ensures
            final(self).wf(),
            final(self).registry() == old(self).registry().remove(scope_id),
            final(self).cells().arena_scopes() == old(self).cells().arena_scopes().remove(scope_id),
            final(self).cells().arenas() == old(self).cells().arenas().restrict(
                outside_arena(old(self).cells().arenas(), scope_id),
            ),
            final(self).cells().subscribers() == old(self).cells().subscribers().restrict(
                outside_arena(old(self).cells().arenas(), scope_id),
            ),
            final(self).cells().upcoming() == old(self).cells().upcoming(),
            final(self).same_but_scopes(old(self)),
    {
        self.cells.drop_scope_owner(scope_id);
        self.registry.unregister_scope(scope_id);
    }

    // ---- context ----

    /// Starts a composition pass with empty stacks.
    pub fn begin_composition(&mut self)
        ensures
            final(self).context().active(),
            final(self).context().parents() == Seq::<EntityId>::empty(),
            final(self).context().scopes() == Seq::<ScopeId>::empty(),
            final(self).context().same_ledger(&old(self).context()),
            final(self).same_but_context(old(self)),
            final(self).wf() == old(self).wf(),
    {
        self.context.begin_composition();
    }

    /// Starts a pass of an incremental recomposition on stacks that are empty
    /// already.
    pub fn begin_incremental_composition(&mut self)
        requires
            old(self).context().parents().len() == 0,
            old(self).context().scopes().len() == 0,
        ensures
            final(self).context().active(),
            final(self).context().parents() == old(self).context().parents(),
            final(self).context().scopes() == old(self).context().scopes(),
            final(self).context().same_ledger(&old(self).context()),
            final(self).same_but_context(old(self)),
            final(self).wf() == old(self).wf(),
    {
        self.context.begin_incremental_composition();
    }

    /// Ends the pass and empties both stacks.
    pub fn end_composition(&mut self)
        ensures
            final(self).context().idle(),
            final(self).context().same_ledger(&old(self).context()),
            final(self).same_but_context(old(self)),
            final(self).wf() == old(self).wf(),
    {
        self.context.end_composition();
    }

    /// The topmost scope, if any.
    pub fn current_scope_id(&self) -> (scope: Option<ScopeId>)
        ensures
            scope == top_of(self.context().scopes()),
    {
        self.context.current_scope_id()
    }

    /// The topmost parent, if any.
    pub fn get_current_parent(&self) -> (parent: Option<EntityId>)
        ensures
            parent == top_of(self.context().parents()),
    {
        self.context.get_current_parent()
    }

    /// Makes `scope_id` the topmost scope.
    pub fn enter_scope(&mut self, scope_id: ScopeId)
        ensures
            final(self).context().scopes() == old(self).context().scopes().push(scope_id),
            final(self).context().parents() == old(self).context().parents(),
            final(self).context().active() == old(self).context().active(),
            final(self).context().same_ledger(&old(self).context()),
            final(self).same_but_context(old(self)),
            final(self).wf() == old(self).wf(),
    {
        self.context.enter_scope(scope_id);
    }

    /// Removes the topmost scope. There has to be one: an exit without a
    /// matching enter is an error of the caller.
    pub fn exit_scope(&mut self)
        requires
            old(self).context().scopes().len() > 0,
        ensures
            final(self).context().scopes() == old(self).context().scopes().drop_last(),
            final(self).context().parents() == old(self).context().parents(),
            final(self).context().active() == old(self).context().active(),
            final(self).context().same_ledger(&old(self).context()),
            final(self).same_but_context(old(self)),
            final(self).wf() == old(self).wf(),
    {
        self.context.exit_scope();
    }

    /// Makes `entity` the topmost parent.
    pub fn push_parent(&mut self, entity: EntityId)
        ensures
            final(self).context().parents() == old(self).context().parents().push(entity),
            final(self).context().scopes() == old(self).context().scopes(),
            final(self).context().active() == old(self).context().active(),
            final(self).context().same_ledger(&old(self).context()),
            final(self).same_but_context(old(self)),
            final(self).wf() == old(self).wf(),
    {
        self.context.push_parent(entity);
    }

    /// Removes the topmost parent. There has to be one: a pop without a
    /// matching push is an error of the caller.
    pub fn pop_parent(&mut self)
        requires
            old(self).context().parents().len() > 0,
        ensures
            final(self).context().parents() == old(self).context().parents().drop_last(),
            final(self).context().scopes() == old(self).context().scopes(),
            final(self).context().active() == old(self).context().active(),
            final(self).context().same_ledger(&old(self).context()),
            final(self).same_but_context(old(self)),
            final(self).wf() == old(self).wf(),
    {
        self.context.pop_parent();
    }

    /// The entities that `scope_id` owns, in the order of emission.
    pub fn get_scope_entities(&self, scope_id: ScopeId) -> (entities: Vec<EntityId>)
        ensures
            entities@ == entities_of(self.context().owned(), scope_id),
    {
        self.context.get_scope_entities(scope_id)
    }

    /// The first entity that was emitted in `scope_id`, if any was.
    pub fn get_scope_root_entity(&self, scope_id: ScopeId) -> (entity: Option<EntityId>)
        ensures
            entity == (if self.context().first_entities().contains_key(scope_id) {
                Some(self.context().first_entities()[scope_id])
            } else {
                None
            }),
    {
        self.context.get_scope_root_entity(scope_id)
    }

    /// Forgets what `scope_id` owns and keeps the scope alive.
    pub fn clear_scope_mapping(&mut self, scope_id: ScopeId)
        ensures
            final(self).context().first_entities() == old(self).context().first_entities().remove(
                scope_id,
            ),
            final(self).context().owned() == old(self).context().owned().remove(scope_id),
            final(self).context().entity_scopes() == without_entities(
                old(self).context().entity_scopes(),
                entities_of(old(self).context().owned(), scope_id),
            ),
            final(self).context().parents() == old(self).context().parents(),
            final(self).context().scopes() == old(self).context().scopes(),
            final(self).context().active() == old(self).context().active(),
            final(self).same_but_context(old(self)),
            final(self).wf() == old(self).wf(),
    {
        self.context.clear_scope_mapping(scope_id);
    }

    /// Takes note of an entity that the renderer has just spawned and says
    /// where it belongs: under the topmost parent, or among the composition
    /// roots. With a scope on the stack, the topmost scope owns the entity
    /// from now on. Outside a pass the call is refused.
    pub fn spawn_child(&mut self, entity: EntityId) -> (placed: Result<Placement, CompositionError>)
        ensures
            final(self).same_but_context(old(self)),
            final(self).wf() == old(self).wf(),
            !old(self).context().active() ==> placed == Err::<Placement, CompositionError>(
                CompositionError::NotComposing,
            ) && final(self).context() == old(self).context(),
            old(self).context().active() ==> placed == Ok::<Placement, CompositionError>(
                placement_under(old(self).context().parents()),
            ),
            old(self).context().active() && old(self).context().scopes().len() == 0
                ==> final(self).context() == old(self).context(),
            old(self).context().active() && old(self).context().scopes().len() > 0 ==> {
                let scope = old(self).context().scopes().last();
                &&& final(self).context().entity_scopes() == old(self).context().entity_scopes().insert(
                    entity,
                    scope,
                )
                &&& final(self).context().owned() == old(self).context().owned().insert(
                    scope,
                    entities_of(old(self).context().owned(), scope).push(entity),
                )
                &&& final(self).context().first_entities()
                    == (if old(self).context().first_entities().contains_key(scope) {
                    old(self).context().first_entities()
                } else {
                    old(self).context().first_entities().insert(scope, entity)
                })
                &&& final(self).context().parents() == old(self).context().parents()
                &&& final(self).context().scopes() == old(self).context().scopes()
                &&& final(self).context().active()
            },
    {
        self.context.spawn_child(entity)
    }

    // ---- composable primitives ----

    /// Opens a scoped container on the host entity `container_entity`, which
    /// the renderer has spawned already: the next scope identifier is
    /// registered with `content` as its content and, unless it was registered
    /// by hand before, the topmost scope as its enclosing scope; the host
    /// becomes its root entity; then the host becomes the topmost parent
    /// and the new scope the topmost scope. The caller runs the content and
    /// then closes what this call returns.
    pub fn scoped_container(&mut self, container_entity: EntityId, content: C) -> (open: OpenScope)
        requires
            old(self).wf(),
            !old(self).ids().exhausted(),
        ensures
            final(self).wf(),
            open.scope().0 == old(self).ids().upcoming(),
            open.scope() != ScopeId::root(),
            open.container() == Some(container_entity),
            final(self).ids().upcoming() == old(self).ids().upcoming() + 1,
            final(self).registry() == old(self).registry().insert(
                open.scope(),
                (ScopeInfo {
                    root_entity: Some(container_entity),
                    ..registered(
                        old(self).registry(),
                        open.scope(),
                        content,
                        top_of(old(self).context().scopes()),
                    )
                }),
            ),
            final(self).context().parents() == old(self).context().parents().push(container_entity),
            final(self).context().scopes() == old(self).context().scopes().push(open.scope()),
            final(self).context().active() == old(self).context().active(),
            final(self).context().same_ledger(&old(self).context()),
            open.parents() == final(self).context().parents(),
            open.scopes() == final(self).context().scopes(),
            open.parents_outside() == old(self).context().parents(),
            open.scopes_outside() == old(self).context().scopes(),
            final(self).dirty() == old(self).dirty(),
            final(self).cells() == old(self).cells(),
            final(self).same_driver(old(self)),
    {
        let scope = ScopeId::new(&mut self.ids);
        let parent_scope = self.context.current_scope_id();
        self.registry.register_scope(scope, content, parent_scope);
        self.registry.set_scope_root_entity(scope, container_entity);
        self.context.push_parent(container_entity);
        self.context.enter_scope(scope);
        let open = OpenScope {
            scope,
            container: Some(container_entity),
            parents: self.context.parent_snapshot(),
            scopes: self.context.scope_snapshot(),
        };
        proof {
            let info = ScopeInfo {
                root_entity: Some(container_entity),
                ..registered(old(self).registry(), scope, content, top_of(old(self).context().scopes()))
            };
            assert(self.registry() =~= old(self).registry().insert(scope, info));
            assert(old(self).context().parents().push(container_entity).drop_last()
                =~= old(self).context().parents());
            assert(old(self).context().scopes().push(scope).drop_last() =~= old(self).context().scopes());
        }
        open
    }

    /// Opens a transient scope for a leaf, a branch or one item of a list.
    /// It has no entry in the registry and no identity of its own: reads and
    /// emissions inside it are attributed to the scope in charge, which is
    /// pushed once more.
    pub fn enter_implicit_scope(&mut self) -> (open: OpenScope)
        ensures
            open.scope() == scope_in_charge(old(self).context().scopes()),
            open.container() == None::<EntityId>,
            final(self).context().scopes() == old(self).context().scopes().push(open.scope()),
            final(self).context().parents() == old(self).context().parents(),
            final(self).context().active() == old(self).context().active(),
            final(self).context().same_ledger(&old(self).context()),
            open.parents() == final(self).context().parents(),
            open.scopes() == final(self).context().scopes(),
            open.parents_outside() == old(self).context().parents(),
            open.scopes_outside() == old(self).context().scopes(),
            final(self).same_but_context(old(self)),
            final(self).wf() == old(self).wf(),
    {
        let scope = match self.context.current_scope_id() {
            Some(s) => s,
            None => ScopeId::root(),
        };
        self.context.enter_scope(scope);
        let open = OpenScope {
            scope,
            container: None,
            parents: self.context.parent_snapshot(),
            scopes: self.context.scope_snapshot(),
        };
        proof {
            assert(old(self).context().scopes().push(scope).drop_last() =~= old(self).context().scopes());
        }
        open
    }

    /// Leaves what `open` entered. The two stacks have to stand exactly as
    /// they stood right after entering; then the scope is left, and for a
    /// scoped container the host is popped. Otherwise the content was not
    /// balanced: the call is refused and nothing changes.
    pub fn leave_scope(&mut self, open: &OpenScope) -> (left: Result<(), CompositionError>)
        ensures
            final(self).same_but_context(old(self)),
            final(self).wf() == old(self).wf(),
            final(self).context().active() == old(self).context().active(),
            final(self).context().same_ledger(&old(self).context()),
            left is Ok <==> (old(self).context().parents() == open.parents()
                && old(self).context().scopes() == open.scopes()),
            left is Ok ==> {
                &&& final(self).context().parents() == open.parents_outside()
                &&& final(self).context().scopes() == open.scopes_outside()
            },
            left is Err ==> {
                &&& left == Err::<(), CompositionError>(CompositionError::Unbalanced)
                &&& *final(self) == *old(self)
            },
    {
        proof {
            use_type_invariant(open);
        }
        if self.context.stacks_are(&open.parents, &open.scopes) {
            self.context.exit_scope();
            if open.container.is_some() {
                self.context.pop_parent();
            }
            Ok(())
        } else {
            Err(CompositionError::Unbalanced)
        }
    }
}

} // verus!
