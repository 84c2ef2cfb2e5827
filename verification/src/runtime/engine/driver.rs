//! The frame driver. Once per frame the host asks what has to be rebuilt; the
//! driver drains the dirty set and answers with a full recomposition when the
//! root scope was dirty, and with one rebuild per registered dirty scope
//! otherwise. The host does the renderer's part and runs the content; the
//! driver prepares and closes every pass.

use vstd::prelude::*;
use crate::runtime::cells::{unsubscribed, without_scope};
use crate::runtime::context::{entities_of, owned_by_any, without_entities};
use crate::runtime::dirty::scope_set;
use crate::runtime::engine::{Phase, Runtime};
use crate::runtime::error::CompositionError;
use crate::runtime::ids::{EntityId, ScopeId};
use crate::runtime::engine::reap::reaped_below;
use crate::runtime::registry::ScopeInfo;

verus! {

/// What a frame asks of the host.
#[derive(Clone, Copy, Debug, PartialEq, Eq, Structural)]
pub enum FramePlan {
    /// Nothing is to be done: the initial composition has not run, or no
    /// scope is dirty.
    Skip,
    /// Full recomposition. The host despawns every composition root, runs the
    /// application content once and finishes the full recomposition. The
    /// pass is open already, with the root scope entered.
    Full,
    /// Granular recomposition. The host asks for the next rebuild until there
    /// is none.
    Granular,
}

/// One scope to rebuild. The host despawns every direct child of
/// `root_entity`, runs the content of `scope`, and finishes the rebuild. The
/// pass is open already, with the host entity as parent and the scope
/// entered.
#[derive(Clone, Copy, Debug, PartialEq, Eq, Structural)]
pub struct Rebuild {
    pub scope: ScopeId,
    pub root_entity: EntityId,
}

/// What a frame asks of the host, given whether the initial composition has
/// run and which scopes are dirty: nothing before the initial composition or
/// without a dirty scope; a full recomposition when the root scope is dirty,
/// whatever else is; granular rebuilds otherwise.
pub open spec fn plan_for(initialized: bool, dirty: Set<ScopeId>) -> FramePlan {
    if !initialized {
        FramePlan::Skip
    } else if dirty.contains(ScopeId::root()) {
        FramePlan::Full
    } else if dirty == Set::<ScopeId>::empty() {
        FramePlan::Skip
    } else {
        FramePlan::Granular
    }
}

/// A full recomposition subsumes granular work: once the root scope is
/// dirty, the plan is a full recomposition whichever other scopes are dirty
/// too.
pub proof fn lemma_root_subsumes_granular(dirty: Set<ScopeId>, others: Set<ScopeId>)
    requires
        dirty.contains(ScopeId::root()),
    ensures
        plan_for(true, dirty) == FramePlan::Full,
        plan_for(true, dirty.union(others)) == FramePlan::Full,
        plan_for(true, dirty) == plan_for(true, set![ScopeId::root()]),
{
    assert(dirty.union(others).contains(ScopeId::root()));
    assert(set![ScopeId::root()].contains(ScopeId::root()));
}

/// Whether a dirty scope can be rebuilt: it is registered and has a host.
pub open spec fn rebuildable<C>(registry: Map<ScopeId, ScopeInfo<C>>, scope: ScopeId) -> bool {
    registry.contains_key(scope) && registry[scope].root_entity is Some
}

/// The position in `pending` of the next scope to rebuild: the last one that
/// can be rebuilt. `-1` where none can.
pub open spec fn next_position<C>(registry: Map<ScopeId, ScopeInfo<C>>, pending: Seq<ScopeId>) -> int
    decreases pending.len(),
{
    if pending.len() == 0 {
        -1
    } else if rebuildable(registry, pending.last()) {
        pending.len() - 1
    } else {
        next_position(registry, pending.drop_last())
    }
}

/// At the position that `next_position` names stands a scope that can be
/// rebuilt, and none stands behind it.
pub proof fn lemma_next_position<C>(registry: Map<ScopeId, ScopeInfo<C>>, pending: Seq<ScopeId>)
    ensures
        -1 <= next_position(registry, pending) < pending.len(),
        next_position(registry, pending) >= 0 ==> rebuildable(
            registry,
            pending[next_position(registry, pending)],
        ),
        forall|j: int|
            next_position(registry, pending) < j < pending.len() ==> !rebuildable(
                registry,
                #[trigger] pending[j],
            ),
    decreases pending.len(),
{
    if pending.len() > 0 && !rebuildable(registry, pending.last()) {
        lemma_next_position(registry, pending.drop_last());
        assert forall|j: int| next_position(registry, pending) < j < pending.len() implies !rebuildable(
            registry,
            #[trigger] pending[j],
        ) by {
            if j < pending.len() - 1 {
                assert(pending.drop_last()[j] == pending[j]);
            }
        }
    }
}

impl<C> Runtime<C> {
    /// Opens the initial composition: a pass with empty stacks under the root
    /// scope. The host then runs the application content and finishes the
    /// initial composition. Refused while the driver or the context is in
    /// use.
    pub fn begin_initial_composition(&mut self) -> (begun: Result<(), CompositionError>)
        ensures
            final(self).wf() == old(self).wf(),
            begun is Ok <==> old(self).phase() == Phase::Idle && !old(self).context().active(),
            begun is Err ==> begun == Err::<(), CompositionError>(CompositionError::AlreadyComposing)
                && *final(self) == *old(self),
            begun is Ok ==> {
                &&& final(self).phase() == Phase::Initial
                &&& final(self).context().active()
                &&& final(self).context().parents() == Seq::<EntityId>::empty()
                &&& final(self).context().scopes() == seq![ScopeId::root()]
                &&& final(self).context().same_ledger(&old(self).context())
                &&& final(self).ids() == old(self).ids()
                &&& final(self).registry() == old(self).registry()
                &&& final(self).dirty() == old(self).dirty()
                &&& final(self).cells() == old(self).cells()
                &&& final(self).initialized() == old(self).initialized()
                &&& final(self).pending() == old(self).pending()
            },
    {
        if self.phase != Phase::Idle || self.context.is_active() {
            return Err(CompositionError::AlreadyComposing);
        }
        self.context.begin_composition();
        self.context.enter_scope(ScopeId::root());
        self.phase = Phase::Initial;
        assert(Seq::<ScopeId>::empty().push(ScopeId::root()) =~= seq![ScopeId::root()]);
        Ok(())
    }

    /// Closes the initial composition. Whatever the content left behind, the
    /// pass is ended and both stacks are emptied. When the content left the
    /// stacks as it found them, the runtime counts as initialized; when not,
    /// the imbalance is reported and the runtime stays uninitialized.
    pub fn finish_initial_composition(&mut self) -> (finished: Result<(), CompositionError>)
        ensures
            final(self).wf() == old(self).wf(),
            old(self).phase() != Phase::Initial ==> finished == Err::<(), CompositionError>(
                CompositionError::NotComposing,
            ) && *final(self) == *old(self),
            old(self).phase() == Phase::Initial ==> {
                &&& final(self).phase() == Phase::Idle
                &&& final(self).context().idle()
                &&& final(self).context().same_ledger(&old(self).context())
                &&& final(self).ids() == old(self).ids()
                &&& final(self).registry() == old(self).registry()
                &&& final(self).dirty() == old(self).dirty()
                &&& final(self).cells() == old(self).cells()
                &&& final(self).pending() == old(self).pending()
                &&& (finished is Ok <==> old(self).context().parents() == Seq::<EntityId>::empty()
                    && old(self).context().scopes() == seq![ScopeId::root()])
                &&& finished is Ok ==> final(self).initialized()
                &&& finished is Err ==> finished == Err::<(), CompositionError>(
                    CompositionError::Unbalanced,
                ) && final(self).initialized() == old(self).initialized()
            },
    {
        if self.phase != Phase::Initial {
            return Err(CompositionError::NotComposing);
        }
        let balanced = self.under_root_only();
        self.context.end_composition();
        self.phase = Phase::Idle;
        if balanced {
            self.initialized = true;
            Ok(())
        } else {
            Err(CompositionError::Unbalanced)
        }
    }

    /// Whether the parent stack is empty and the scope stack holds the root
    /// scope and nothing else.
    fn under_root_only(&self) -> (b: bool)
        ensures
            b == (self.context().parents() == Seq::<EntityId>::empty() && self.context().scopes()
                == seq![ScopeId::root()]),
    {
        let b = self.context.parent_depth() == 0 && self.context.scope_depth() == 1
            && match self.context.current_scope_id() {
            Some(s) => s.is_root(),
            None => false,
        };
        proof {
            if b {
                assert(self.context().parents() =~= Seq::<EntityId>::empty());
                assert(self.context().scopes() =~= seq![ScopeId::root()]);
            } else {
                if self.context().parents() == Seq::<EntityId>::empty() && self.context().scopes()
                    == seq![ScopeId::root()] {
                    assert(seq![ScopeId::root()].len() == 1);
                    assert(seq![ScopeId::root()].last() == ScopeId::root());
                }
            }
        }
        b
    }

    /// Opens a frame. Nothing happens before the initial composition or while
    /// no scope is dirty. Otherwise the dirty set is drained, so that marks
    /// made during the frame wait for the next one. With the root scope among
    /// the drained, a full recomposition is opened and every other drained
    /// scope is absorbed by it: what the drained scopes own is forgotten, no
    /// scope stays subscribed to any cell, and a pass is begun under the root
    /// scope. Without the root scope, the drained scopes are queued for
    /// granular rebuilds.
    pub fn begin_frame(&mut self) -> (plan: Result<FramePlan, CompositionError>)
        requires
            old(self).wf(),
        ensures
            final(self).wf(),
            final(self).ids() == old(self).ids(),
            final(self).registry() == old(self).registry(),
            final(self).initialized() == old(self).initialized(),
            final(self).cells().arenas() == old(self).cells().arenas(),
            final(self).cells().arena_scopes() == old(self).cells().arena_scopes(),
            final(self).cells().upcoming() == old(self).cells().upcoming(),
            !(old(self).phase() == Phase::Idle && old(self).context().idle()) ==> plan == Err::<
                FramePlan,
                CompositionError,
            >(CompositionError::AlreadyComposing) && *final(self) == *old(self),
            old(self).phase() == Phase::Idle && old(self).context().idle() ==> plan == Ok::<
                FramePlan,
                CompositionError,
            >(plan_for(old(self).initialized(), old(self).dirty())),
            plan == Ok::<FramePlan, CompositionError>(FramePlan::Skip) ==> *final(self) == *old(self),
            plan == Ok::<FramePlan, CompositionError>(FramePlan::Full) ==> {
                &&& final(self).phase() == Phase::Full
                &&& final(self).pending() == Seq::<ScopeId>::empty()
                &&& final(self).dirty() == Set::<ScopeId>::empty()
                &&& final(self).context().active()
                &&& final(self).context().parents() == Seq::<EntityId>::empty()
                &&& final(self).context().scopes() == seq![ScopeId::root()]
                &&& final(self).context().owned() == old(self).context().owned().remove_keys(
                    old(self).dirty(),
                )
                &&& final(self).context().first_entities()
                    == old(self).context().first_entities().remove_keys(old(self).dirty())
                &&& final(self).context().entity_scopes() == old(self).context().entity_scopes().remove_keys(
                    owned_by_any(old(self).context().owned(), old(self).dirty()),
                )
                &&& final(self).cells().subscribers() == unsubscribed(old(self).cells().subscribers())
            },
            plan == Ok::<FramePlan, CompositionError>(FramePlan::Granular) ==> {
                &&& final(self).phase() == Phase::Granular
                &&& final(self).pending().no_duplicates()
                &&& scope_set(final(self).pending()) == old(self).dirty()
                &&& final(self).dirty() == Set::<ScopeId>::empty()
                &&& final(self).context() == old(self).context()
                &&& final(self).cells() == old(self).cells()
            },
    {
        if self.phase != Phase::Idle || !self.context.is_idle() {
            return Err(CompositionError::AlreadyComposing);
        }
        if !self.initialized || !self.dirty.non_empty() {
            return Ok(FramePlan::Skip);
        }
        let full = self.dirty.contains(ScopeId::root());
        let drained = self.dirty.drain();
        if full {
            self.context.clear_scope_mappings(&drained);
            self.cells.clear_all_subscribers();
            self.context.begin_incremental_composition();
            self.context.enter_scope(ScopeId::root());
            self.pending = Vec::new();
            self.phase = Phase::Full;
            assert(Seq::<ScopeId>::empty().push(ScopeId::root()) =~= seq![ScopeId::root()]);
            Ok(FramePlan::Full)
        } else {
            self.pending = drained;
            self.phase = Phase::Granular;
            Ok(FramePlan::Granular)
        }
    }

    /// Closes a full recomposition. Whatever the content left behind, the
    /// pass is ended and both stacks are emptied; an imbalance is reported.
    /// The scopes that named the root scope as their enclosing scope and
    /// whose host is not among `present` were not emitted again: they are
    /// unregistered and their arenas dropped, and so are the scopes below
    /// them whose hosts are gone. All of them are returned.
    pub fn finish_full_recomposition(&mut self, present: &Vec<EntityId>) -> (finished: Result<
        Vec<ScopeId>,
        CompositionError,
    >)
        requires
            old(self).wf(),
        ensures
            final(self).wf(),
            old(self).phase() != Phase::Full ==> finished == Err::<Vec<ScopeId>, CompositionError>(
                CompositionError::NotComposing,
            ) && *final(self) == *old(self),
            old(self).phase() == Phase::Full ==> {
                &&& final(self).phase() == Phase::Idle
                &&& final(self).context().idle()
                &&& final(self).context().same_ledger(&old(self).context())
                &&& final(self).ids() == old(self).ids()
                &&& final(self).dirty() == old(self).dirty()
                &&& final(self).initialized() == old(self).initialized()
                &&& final(self).pending() == old(self).pending()
                &&& (finished is Ok <==> old(self).context().parents() == Seq::<EntityId>::empty()
                    && old(self).context().scopes() == seq![ScopeId::root()])
                &&& finished is Err ==> finished == Err::<Vec<ScopeId>, CompositionError>(
                    CompositionError::Unbalanced,
                ) && final(self).registry() == old(self).registry() && final(self).cells()
                    == old(self).cells()
                &&& finished is Ok ==> reaped_below(old(self), final(self), ScopeId::root(), present@, finished->Ok_0@)
            },
    {
        if self.phase != Phase::Full {
            return Err(CompositionError::NotComposing);
        }
        let balanced = self.under_root_only();
        self.context.end_composition();
        self.phase = Phase::Idle;
        if balanced {
            let gone = self.reap_descendants(ScopeId::root(), present);
            Ok(gone)
        } else {
            Err(CompositionError::Unbalanced)
        }
    }

    /// Prepares the next rebuild of the open granular frame. Queued scopes
    /// that are no longer registered, or have no host, are passed over. For
    /// the first that can be rebuilt, what it owns is forgotten, it is taken
    /// out of the subscribers of every cell, and a pass is begun with its
    /// host as parent and the scope entered. When none is left the frame is
    /// closed.
    pub fn next_rebuild(&mut self) -> (next: Result<Option<Rebuild>, CompositionError>)
        requires
            old(self).wf(),
        ensures
            final(self).wf(),
            final(self).ids() == old(self).ids(),
            final(self).registry() == old(self).registry(),
            final(self).dirty() == old(self).dirty(),
            final(self).initialized() == old(self).initialized(),
            final(self).cells().arenas() == old(self).cells().arenas(),
            final(self).cells().arena_scopes() == old(self).cells().arena_scopes(),
            final(self).cells().upcoming() == old(self).cells().upcoming(),
            old(self).phase() != Phase::Granular ==> next == Err::<Option<Rebuild>, CompositionError>(
                CompositionError::NotComposing,
            ) && *final(self) == *old(self),
            old(self).phase() == Phase::Granular && !old(self).context().idle() ==> next == Err::<
                Option<Rebuild>,
                CompositionError,
            >(CompositionError::AlreadyComposing) && *final(self) == *old(self),
            old(self).phase() == Phase::Granular && old(self).context().idle() ==> {
                let at = next_position(old(self).registry(), old(self).pending());
                &&& next is Ok
                &&& at < 0 ==> {
                    &&& next == Ok::<Option<Rebuild>, CompositionError>(None)
                    &&& final(self).phase() == Phase::Idle
                    &&& final(self).pending() == Seq::<ScopeId>::empty()
                    &&& final(self).context() == old(self).context()
                    &&& final(self).cells() == old(self).cells()
                }
                &&& at >= 0 ==> {
                    let scope = old(self).pending()[at];
                    let root = old(self).registry()[scope].root_entity->0;
                    &&& next == Ok::<Option<Rebuild>, CompositionError>(
                        Some(Rebuild { scope, root_entity: root }),
                    )
                    &&& final(self).phase() == Phase::Rebuilding(scope, root)
                    &&& final(self).pending() == old(self).pending().take(at)
                    &&& final(self).context().active()
                    &&& final(self).context().parents() == seq![root]
                    &&& final(self).context().scopes() == seq![scope]
                    &&& final(self).context().owned() == old(self).context().owned().remove(scope)
                    &&& final(self).context().first_entities()
                        == old(self).context().first_entities().remove(scope)
                    &&& final(self).context().entity_scopes() == without_entities(
                        old(self).context().entity_scopes(),
                        entities_of(old(self).context().owned(), scope),
                    )
                    &&& final(self).cells().subscribers() == without_scope(
                        old(self).cells().subscribers(),
                        scope,
                    )
                }
            },
    {
        if self.phase != Phase::Granular {
            return Err(CompositionError::NotComposing);
        }
        if !self.context.is_idle() {
            return Err(CompositionError::AlreadyComposing);
        }
        proof {
            lemma_next_position(old(self).registry(), old(self).pending());
        }
        loop
            invariant
                self.wf(),
                self.ids() == old(self).ids(),
                self.registry() == old(self).registry(),
                self.dirty() == old(self).dirty(),
                self.initialized() == old(self).initialized(),
                self.cells() == old(self).cells(),
                self.context() == old(self).context(),
                self.context().idle(),
                self.phase() == Phase::Granular,
                old(self).phase() == Phase::Granular,
                self.pending().len() <= old(self).pending().len(),
                self.pending() == old(self).pending().take(self.pending().len() as int),
                next_position(self.registry(), self.pending()) == next_position(
                    old(self).registry(),
                    old(self).pending(),
                ),
            decreases self.pending().len(),
        {
            let ghost before = self.pending();
            match self.pending.pop() {
                None => {
                    self.phase = Phase::Idle;
                    assert(self.pending() =~= Seq::<ScopeId>::empty());
                    return Ok(None);
                },
                Some(scope) => {
                    assert(before.drop_last() =~= self.pending());
                    assert(self.pending() =~= old(self).pending().take(self.pending().len() as int));
                    let root = match self.registry.get_scope_info(scope) {
                        Some(info) => info.root_entity,
                        None => None,
                    };
                    match root {
                        Some(root) => {
                            self.context.clear_scope_mapping(scope);
                            self.cells.unsubscribe_scope(scope);
                            self.context.begin_incremental_composition();
                            self.context.set_parent_for_scope(root);
                            self.context.enter_scope(scope);
                            self.phase = Phase::Rebuilding(scope, root);
                            proof {
                                assert(Seq::<EntityId>::empty().push(root) =~= seq![root]);
                                assert(Seq::<ScopeId>::empty().push(scope) =~= seq![scope]);
                                assert(old(self).context().parents() =~= Seq::<EntityId>::empty());
                                assert(old(self).context().scopes() =~= Seq::<ScopeId>::empty());
                            }
                            return Ok(Some(Rebuild { scope, root_entity: root }));
                        },
                        None => {},
                    }
                },
            }
        }
    }

    /// Closes the rebuild of a scope. Whatever the content left behind, the
    /// pass is ended and both stacks are emptied, and the granular frame goes
    /// on; an imbalance is reported. After a balanced rebuild, the scopes that
    /// named the rebuilt scope as their enclosing scope and whose host is not
    /// among `present` were not emitted again: they are unregistered and
    /// their arenas dropped, and so are the scopes below them whose hosts are
    /// gone. All of them are returned.
    pub fn finish_rebuild(&mut self, present: &Vec<EntityId>) -> (finished: Result<
        Vec<ScopeId>,
        CompositionError,
    >)
        requires
            old(self).wf(),
        ensures
            final(self).wf(),
            !(old(self).phase() is Rebuilding) ==> finished == Err::<Vec<ScopeId>, CompositionError>(
                CompositionError::NotComposing,
            ) && *final(self) == *old(self),
            old(self).phase() is Rebuilding ==> {
                let scope = old(self).phase()->Rebuilding_0;
                let root = old(self).phase()->Rebuilding_1;
                &&& final(self).phase() == Phase::Granular
                &&& final(self).context().idle()
                &&& final(self).context().same_ledger(&old(self).context())
                &&& final(self).ids() == old(self).ids()
                &&& final(self).dirty() == old(self).dirty()
                &&& final(self).initialized() == old(self).initialized()
                &&& final(self).pending() == old(self).pending()
                &&& (finished is Ok <==> old(self).context().parents() == seq![root]
                    && old(self).context().scopes() == seq![scope])
                &&& finished is Err ==> finished == Err::<Vec<ScopeId>, CompositionError>(
                    CompositionError::Unbalanced,
                ) && final(self).registry() == old(self).registry() && final(self).cells()
                    == old(self).cells()
                &&& finished is Ok ==> reaped_below(old(self), final(self), scope, present@, finished->Ok_0@)
            },
    {
        match self.phase {
            Phase::Rebuilding(scope, root) => {
                let mut parents: Vec<EntityId> = Vec::new();
                parents.push(root);
                let mut scopes: Vec<ScopeId> = Vec::new();
                scopes.push(scope);
                proof {
                    assert(parents@ =~= seq![root]);
                    assert(scopes@ =~= seq![scope]);
                }
                let balanced = self.context.stacks_are(&parents, &scopes);
                self.context.end_composition();
                self.phase = Phase::Granular;
                if balanced {
                    let gone = self.reap_descendants(scope, present);
                    Ok(gone)
                } else {
                    Err(CompositionError::Unbalanced)
                }
            },
            _ => Err(CompositionError::NotComposing),
        }
    }
}

} // verus!
