//! What holds of a frame, whatever the content of the scopes does: which
//! scopes a frame names, what a rebuilt scope owns and is subscribed to, and
//! which scopes and states outlive a rebuild.

use vstd::prelude::*;
use crate::runtime::cells::{without_scope, StateId};
use crate::runtime::context::{entities_of, placement_under, Placement};
use crate::runtime::engine::driver::{next_position, plan_for, rebuildable, FramePlan};
use crate::runtime::engine::reap::{died_with_parent, reaped_below};
use crate::runtime::engine::state::{after_read, notified};
use crate::runtime::engine::Runtime;
use crate::runtime::ids::{EntityId, ScopeId};
use crate::runtime::registry::ScopeInfo;

verus! {

/// A write to a state that one container has read asks for one granular
/// rebuild, of that container: the frame is granular, the container is the
/// first and only scope it names, and after it nothing is left. No full pass
/// takes place and no other scope is named.
pub proof fn lemma_one_reader_one_rebuild<C>(
    registry: Map<ScopeId, ScopeInfo<C>>,
    reader: ScopeId,
    pending: Seq<ScopeId>,
)
    requires
        reader != ScopeId::root(),
        rebuildable(registry, reader),
        pending.no_duplicates(),
        pending.to_set() == notified(set![reader]),
    ensures
        plan_for(true, notified(set![reader])) == FramePlan::Granular,
        pending == seq![reader],
        next_position(registry, pending) == 0,
        next_position(registry, pending.take(0)) == -1,
{
    assert(set![reader].contains(reader));
    assert(notified(set![reader]) == set![reader]);
    assert(!set![reader].contains(ScopeId::root()));
    pending.unique_seq_to_set();
    assert(set![reader].len() == 1);
    assert(pending.to_set().contains(pending[0]));
    assert(pending =~= seq![reader]);
    assert(pending.last() == reader);
    assert(pending.take(0).len() == 0);
}

/// When its rebuild is prepared a scope owns nothing. What it emits then goes
/// under its host and is what it owns: after one leaf, that leaf and nothing
/// else.
pub proof fn lemma_rebuilt_scope_owns_what_it_emits(
    owned: Map<ScopeId, Seq<EntityId>>,
    scope: ScopeId,
    host: EntityId,
    leaf: EntityId,
)
    ensures
        entities_of(owned.remove(scope), scope) == Seq::<EntityId>::empty(),
        entities_of(
            owned.remove(scope).insert(scope, entities_of(owned.remove(scope), scope).push(leaf)),
            scope,
        ) == seq![leaf],
        placement_under(seq![host]) == Placement::ChildOf(host),
{
    assert(Seq::<EntityId>::empty().push(leaf) =~= seq![leaf]);
    assert(seq![host].last() == host);
}

/// The rebuild of one scope leaves what another scope owns as it was.
pub proof fn lemma_other_scopes_keep_what_they_own(
    owned: Map<ScopeId, Seq<EntityId>>,
    rebuilt: ScopeId,
    other: ScopeId,
    emitted: Seq<EntityId>,
)
    requires
        other != rebuilt,
    ensures
        entities_of(owned.remove(rebuilt), other) == entities_of(owned, other),
        entities_of(owned.remove(rebuilt).insert(rebuilt, emitted), other) == entities_of(owned, other),
{
}

/// A full recomposition forgets what every drained scope owned.
pub proof fn lemma_full_pass_forgets_drained_scopes(
    owned: Map<ScopeId, Seq<EntityId>>,
    drained: Set<ScopeId>,
    scope: ScopeId,
)
    ensures
        drained.contains(scope) ==> entities_of(owned.remove_keys(drained), scope) == Seq::<EntityId>::empty(),
        !drained.contains(scope) ==> entities_of(owned.remove_keys(drained), scope) == entities_of(owned, scope),
{
}

/// A scope that is rebuilt is subscribed afterwards to what it has read
/// during the rebuild and to nothing else: its rebuild begins with no
/// subscription of it, and a read subscribes it to the cell that is read
/// and to no other.
pub proof fn lemma_rebuild_subscribes_afresh(
    subscribers: Map<StateId, Set<ScopeId>>,
    scope: ScopeId,
    read: StateId,
    other: StateId,
    scopes: Seq<ScopeId>,
)
    requires
        subscribers.contains_key(read),
        subscribers.contains_key(other),
        other != read,
        scopes.len() > 0,
        scopes.last() == scope,
    ensures
        !without_scope(subscribers, scope)[read].contains(scope),
        !without_scope(subscribers, scope)[other].contains(scope),
        after_read(without_scope(subscribers, scope), read, scopes)[read].contains(scope),
        !after_read(without_scope(subscribers, scope), read, scopes)[other].contains(scope),
{
}

/// A scope whose host is still there outlives a rebuild, with the entry it
/// had: the rebuilt scope itself, which keeps its host, and every scope that
/// was emitted again.
pub proof fn lemma_scope_with_host_survives<C>(
    before: &Runtime<C>,
    after: &Runtime<C>,
    start: ScopeId,
    present: Seq<EntityId>,
    gone: Seq<ScopeId>,
    scope: ScopeId,
)
    requires
        reaped_below(before, after, start, present, gone),
        before.registry().contains_key(scope),
        before.registry()[scope].root_entity is Some,
        present.contains(before.registry()[scope].root_entity->0),
    ensures
        !gone.contains(scope),
        after.registry().contains_key(scope),
        after.registry()[scope] == before.registry()[scope],
        after.cells().arena_scopes().contains(scope) == before.cells().arena_scopes().contains(scope),
{
    if gone.contains(scope) {
        let at = choose|at: int| 0 <= at < gone.len() && gone[at] == scope;
        assert(died_with_parent(before.registry(), start, present.to_set(), gone, at));
        assert(present.to_set().contains(before.registry()[scope].root_entity->0));
    }
    assert(!gone.to_set().contains(scope));
}

} // verus!
