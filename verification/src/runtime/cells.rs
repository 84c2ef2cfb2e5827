//! The record of reactive cells: which arena each cell belongs to and which
//! scopes have read it since they were last rebuilt.

use vstd::prelude::*;
use std::collections::HashMap;
use std::collections::HashSet;
use generational_box::{GenerationalBox, SyncStorage};
use crate::runtime::dirty::{scope_list, scope_set, scopes_of};
use crate::runtime::ids::ScopeId;
use crate::runtime::keyed::{key_list, seen_before};
use crate::runtime::storage::{insert_value, new_owner, ArenaOwner};

verus! {

broadcast use vstd::std_specs::hash::group_hash_axioms;

/// Identifier of a reactive cell. Identifiers are handed out in increasing
/// order and never again once their cell is gone.
#[derive(Clone, Copy, Debug, PartialEq, Eq, Structural, Hash)]
pub struct StateId(pub u64);

/// What is recorded of one cell.
pub struct CellRecord {
    arena: Option<ScopeId>,
    subscribers: HashSet<u64>,
}

/// All live cells, and the owners that keep their values alive: one for each
/// scope in which a cell was created, and one for cells created outside any
/// scope.
pub struct StateCells {
    next: u64,
    records: HashMap<u64, CellRecord>,
    global_owner: ArenaOwner,
    scope_owners: HashMap<u64, ArenaOwner>,
}

/// `subscribers`, with `scope` taken out of every cell's set.
pub open spec fn without_scope(subscribers: Map<StateId, Set<ScopeId>>, scope: ScopeId) -> Map<
    StateId,
    Set<ScopeId>,
> {
    Map::new(|id: StateId| subscribers.contains_key(id), |id: StateId| subscribers[id].remove(scope))
}

/// `subscribers`, with every cell's set emptied.
pub open spec fn unsubscribed(subscribers: Map<StateId, Set<ScopeId>>) -> Map<StateId, Set<ScopeId>> {
    Map::new(|id: StateId| subscribers.contains_key(id), |id: StateId| Set::<ScopeId>::empty())
}

/// The cells of `arenas` that do not belong to the arena of `scope`.
pub open spec fn outside_arena(arenas: Map<StateId, Option<ScopeId>>, scope: ScopeId) -> Set<StateId> {
    Set::new(|id: StateId| arenas.contains_key(id) && arenas[id] != Some(scope))
}

/// A scope that is rebuilt is subscribed to nothing when its rebuild begins:
/// whatever it is subscribed to afterwards, it has read during the rebuild.
/// The other scopes stay subscribed to what they were subscribed to.
pub proof fn lemma_rebuilt_scope_is_unsubscribed(
    subscribers: Map<StateId, Set<ScopeId>>,
    scope: ScopeId,
    id: StateId,
    other: ScopeId,
)
    requires
        subscribers.contains_key(id),
        other != scope,
    ensures
        without_scope(subscribers, scope).contains_key(id),
        !without_scope(subscribers, scope)[id].contains(scope),
        without_scope(subscribers, scope)[id].contains(other) == subscribers[id].contains(other),
{
}

/// Dropping the arena of a scope frees every state that was created in it,
/// and no other.
pub proof fn lemma_dropped_arena_frees_its_cells(
    arenas: Map<StateId, Option<ScopeId>>,
    scope: ScopeId,
    id: StateId,
)
    requires
        arenas.contains_key(id),
    ensures
        arenas.restrict(outside_arena(arenas, scope)).contains_key(id) == (arenas[id] != Some(scope)),
{
}

impl StateCells {
    /// For each live cell, the scopes that are subscribed to it.
    pub closed spec fn subscribers(&self) -> Map<StateId, Set<ScopeId>> {
        Map::new(
            |id: StateId| self.records@.contains_key(id.0),
            |id: StateId| scopes_of(self.records@[id.0].subscribers@),
        )
    }

    /// For each live cell, the scope whose arena owns it; `None` for the
    /// arena that lives as long as the process.
    pub closed spec fn arenas(&self) -> Map<StateId, Option<ScopeId>> {
        Map::new(|id: StateId| self.records@.contains_key(id.0), |id: StateId| self.records@[id.0].arena)
    }

    /// The scopes that have an arena.
    pub closed spec fn arena_scopes(&self) -> Set<ScopeId> {
        scopes_of(self.scope_owners@.dom())
    }

    /// The number of the next cell.
    pub closed spec fn upcoming(&self) -> u64 {
        self.next
    }

    /// Whether `id` names a live cell.
    pub open spec fn live(&self, id: StateId) -> bool {
        self.arenas().contains_key(id)
    }

    /// Every live cell has a number that was handed out, and the arena of its
    /// scope exists.
    pub closed spec fn wf(&self) -> bool {
        &&& forall|k: u64| #[trigger] self.records@.contains_key(k) ==> k < self.next
        &&& forall|k: u64| #[trigger]
            self.records@.contains_key(k) ==> match self.records@[k].arena {
                Some(s) => self.scope_owners@.contains_key(s.0),
                None => true,
            }
    }

    /// No cell number is left.
    pub open spec fn exhausted(&self) -> bool {
        self.upcoming() == u64::MAX
    }

    /// The cells that have subscribers recorded are the live cells.
    pub proof fn lemma_same_domain(&self)
        ensures
            self.subscribers().dom() == self.arenas().dom(),
    {
        assert(self.subscribers().dom() =~= self.arenas().dom());
    }

    /// While the record is well formed, no live cell has a number that is
    /// still to come, and the arena of every live cell exists.
    pub proof fn lemma_live_cells(&self, id: StateId)
        requires
            self.wf(),
            self.live(id),
        ensures
            id.0 < self.upcoming(),
            self.arenas()[id] is Some ==> self.arena_scopes().contains(self.arenas()[id]->0),
    {
    }

    /// No cells, and no arena but the global one.
    pub fn new() -> (cells: StateCells)
        ensures
            cells.wf(),
            cells.upcoming() == 0,
            cells.subscribers() == Map::<StateId, Set<ScopeId>>::empty(),
            cells.arenas() == Map::<StateId, Option<ScopeId>>::empty(),
            cells.arena_scopes() == Set::<ScopeId>::empty(),
    {
        let cells = StateCells {
            next: 0,
            records: HashMap::new(),
            global_owner: new_owner(),
            scope_owners: HashMap::new(),
        };
        assert(cells.subscribers() =~= Map::<StateId, Set<ScopeId>>::empty());
        assert(cells.arenas() =~= Map::<StateId, Option<ScopeId>>::empty());
        assert(cells.arena_scopes() =~= Set::<ScopeId>::empty());
        cells
    }

    /// Whether another cell can be created.
    pub fn has_next(&self) -> (b: bool)
        ensures
            b == !self.exhausted(),
    {
        self.next < u64::MAX
    }

    /// Whether `id` names a live cell.
    pub fn is_live(&self, id: StateId) -> (b: bool)
        ensures
            b == self.live(id),
    {
        self.records.contains_key(&id.0)
    }

    /// Whether `scope` has an arena.
    pub fn has_arena(&self, scope: ScopeId) -> (b: bool)
        ensures
            b == self.arena_scopes().contains(scope),
    {
        self.scope_owners.contains_key(&scope.0)
    }

    /// Creates a cell for `value` in the arena of `scope`, or in the global
    /// arena where `scope` is `None`. The arena of a scope is made on its
    /// first cell. The new cell has no subscribers.
    pub fn create_state_box<T: Send + Sync + 'static>(&mut self, scope: Option<ScopeId>, value: T) -> (made: (
        StateId,
        GenerationalBox<T, SyncStorage>,
    ))
        requires
            old(self).wf(),
            !old(self).exhausted(),
        ensures
            final(self).wf(),
            made.0.0 == old(self).upcoming(),
            !old(self).live(made.0),
            final(self).upcoming() == old(self).upcoming() + 1,
            final(self).subscribers() == old(self).subscribers().insert(made.0, Set::empty()),
            final(self).arenas() == old(self).arenas().insert(made.0, scope),
            final(self).arena_scopes() == (match scope {
                Some(s) => old(self).arena_scopes().insert(s),
                None => old(self).arena_scopes(),
            }),
    {
        let id = StateId(self.next);
        let slot = match scope {
            Some(s) => {
                let owner = match self.scope_owners.remove(&s.0) {
                    Some(owner) => owner,
                    None => new_owner(),
                };
                let slot = insert_value(&owner, value);
                self.scope_owners.insert(s.0, owner);
                slot
            },
            None => insert_value(&self.global_owner, value),
        };
        self.records.insert(id.0, CellRecord { arena: scope, subscribers: HashSet::new() });
        self.next = self.next + 1;
        proof {
            assert(scopes_of(Set::<u64>::empty()) =~= Set::<ScopeId>::empty());
            assert(self.subscribers() =~= old(self).subscribers().insert(id, Set::empty()));
            assert(self.arenas() =~= old(self).arenas().insert(id, scope));
            match scope {
                Some(s) => {
                    assert(self.arena_scopes() =~= old(self).arena_scopes().insert(s));
                },
                None => {
                    assert(self.arena_scopes() =~= old(self).arena_scopes());
                },
            }
        }
        (id, slot)
    }

    /// Adds `scope` to the subscribers of a live cell. For a cell that is gone
    /// nothing happens.
    pub fn subscribe(&mut self, id: StateId, scope: ScopeId)
        requires
            old(self).wf(),
        ensures
            final(self).wf(),
            final(self).upcoming() == old(self).upcoming(),
            final(self).arenas() == old(self).arenas(),
            final(self).arena_scopes() == old(self).arena_scopes(),
            final(self).subscribers() == (if old(self).live(id) {
                old(self).subscribers().insert(id, old(self).subscribers()[id].insert(scope))
            } else {
                old(self).subscribers()
            }),
    {
        match self.records.remove(&id.0) {
            Some(record) => {
                let mut record = record;
                record.subscribers.insert(scope.0);
                proof {
                    assert(scopes_of(record.subscribers@) =~= old(self).subscribers()[id].insert(scope));
                }
                self.records.insert(id.0, record);
                proof {
                    assert(self.arenas() =~= old(self).arenas());
                    assert(self.subscribers() =~= old(self).subscribers().insert(
                        id,
                        old(self).subscribers()[id].insert(scope),
                    ));
                }
            },
            None => {
                proof {
                    assert(self.records@ =~= old(self).records@);
                    assert(self.arenas() =~= old(self).arenas());
                    assert(self.subscribers() =~= old(self).subscribers());
                }
            },
        }
    }

    /// The subscribers of a cell, each once, in no particular order; none for
    /// a cell that is gone.
    pub fn subscribers_of(&self, id: StateId) -> (list: Vec<ScopeId>)
        ensures
            list@.no_duplicates(),
            scope_set(list@) == (if self.live(id) {
                self.subscribers()[id]
            } else {
                Set::empty()
            }),
    {
        match self.records.get(&id.0) {
            Some(record) => scope_list(&record.subscribers),
            None => {
                let list: Vec<ScopeId> = Vec::new();
                assert(scope_set(list@) =~= Set::<ScopeId>::empty());
                list
            },
        }
    }

    /// Empties the subscribers of a live cell. For a cell that is gone nothing
    /// happens.
    pub fn clear_subscribers(&mut self, id: StateId)
        requires
            old(self).wf(),
        ensures
            final(self).wf(),
            final(self).upcoming() == old(self).upcoming(),
            final(self).arenas() == old(self).arenas(),
            final(self).arena_scopes() == old(self).arena_scopes(),
            final(self).subscribers() == (if old(self).live(id) {
                old(self).subscribers().insert(id, Set::empty())
            } else {
                old(self).subscribers()
            }),
    {
        match self.records.remove(&id.0) {
            Some(record) => {
                let mut record = record;
                record.subscribers.clear();
                proof {
                    assert(scopes_of(record.subscribers@) =~= Set::<ScopeId>::empty());
                }
                self.records.insert(id.0, record);
                proof {
                    assert(self.arenas() =~= old(self).arenas());
                    assert(self.subscribers() =~= old(self).subscribers().insert(id, Set::empty()));
                }
            },
            None => {
                proof {
                    assert(self.records@ =~= old(self).records@);
                    assert(self.arenas() =~= old(self).arenas());
                    assert(self.subscribers() =~= old(self).subscribers());
                }
            },
        }
    }

    /// Takes `scope` out of the subscribers of every cell, so that a rebuild
    /// of the scope subscribes it afresh to what it reads.
    pub fn unsubscribe_scope(&mut self, scope: ScopeId)
        requires
            old(self).wf(),
        ensures
            final(self).wf(),
            final(self).upcoming() == old(self).upcoming(),
            final(self).arenas() == old(self).arenas(),
            final(self).arena_scopes() == old(self).arena_scopes(),
            final(self).subscribers() == without_scope(old(self).subscribers(), scope),
    {
        let keys = key_list(&self.records);
        let mut i: usize = 0;
        while i < keys.len()
            invariant
                i <= keys.len(),
                keys@.no_duplicates(),
                keys@.to_set() == old(self).records@.dom(),
                self.next == old(self).next,
                self.scope_owners == old(self).scope_owners,
                self.records@.dom() == old(self).records@.dom(),
                forall|k: u64| #[trigger]
                    self.records@.contains_key(k) ==> self.records@[k].arena == old(self).records@[k].arena,
                forall|k: u64| #[trigger]
                    self.records@.contains_key(k) ==> self.records@[k].subscribers@ == (if seen_before(
                        keys@,
                        i as int,
                        k,
                    ) {
                        old(self).records@[k].subscribers@.remove(scope.0)
                    } else {
                        old(self).records@[k].subscribers@
                    }),
            decreases keys.len() - i,
        {
            let key = keys[i];
            let ghost before = self.records@;
            assert(keys@.contains(key));
            assert(keys@.to_set().contains(key));
            match self.records.remove(&key) {
                Some(record) => {
                    let mut record = record;
                    record.subscribers.remove(&scope.0);
                    self.records.insert(key, record);
                },
                None => {},
            }
            proof {
                assert(self.records@.dom() =~= old(self).records@.dom());
                assert forall|k: u64| #[trigger] self.records@.contains_key(k)
                    implies self.records@[k].subscribers@
                    == (if seen_before(keys@, i + 1, k) {
                    old(self).records@[k].subscribers@.remove(scope.0)
                } else {
                    old(self).records@[k].subscribers@
                }) by {
                    if k == key {
                        assert(keys@[i as int] == k);
                        assert(seen_before(keys@, i + 1, k));
                        if seen_before(keys@, i as int, k) {
                            let j = choose|j: int| 0 <= j < i && #[trigger] keys@[j] == k;
                            assert(false);
                        }
                    } else {
                        assert(self.records@[k] == before[k]);
                        if seen_before(keys@, i + 1, k) {
                            let j = choose|j: int| 0 <= j < i + 1 && #[trigger] keys@[j] == k;
                            assert(j < i);
                            assert(seen_before(keys@, i as int, k));
                        }
                        if seen_before(keys@, i as int, k) {
                            let j = choose|j: int| 0 <= j < i && #[trigger] keys@[j] == k;
                            assert(0 <= j < i + 1 && keys@[j] == k);
                        }
                    }
                }
            }
            i = i + 1;
        }
        proof {
            assert(self.arenas() =~= old(self).arenas());
            assert forall|id: StateId| #[trigger] self.subscribers().contains_key(id)
                implies self.subscribers()[id]
                == old(self).subscribers()[id].remove(scope) by {
                assert(self.records@.contains_key(id.0));
                assert(keys@.to_set().contains(id.0));
                assert(keys@.contains(id.0));
                let j = choose|j: int| 0 <= j < keys@.len() && keys@[j] == id.0;
                assert(seen_before(keys@, i as int, id.0));
                assert(scopes_of(old(self).records@[id.0].subscribers@.remove(scope.0)) =~= scopes_of(
                    old(self).records@[id.0].subscribers@,
                ).remove(scope));
            }
            assert(self.subscribers() =~= without_scope(old(self).subscribers(), scope));
        }
    }

    /// Empties the subscribers of every cell: after this no scope is
    /// subscribed to anything.
    pub fn clear_all_subscribers(&mut self)
        requires
            old(self).wf(),
        ensures
            final(self).wf(),
            final(self).upcoming() == old(self).upcoming(),
            final(self).arenas() == old(self).arenas(),
            final(self).arena_scopes() == old(self).arena_scopes(),
            final(self).subscribers() == unsubscribed(old(self).subscribers()),
    {
        let keys = key_list(&self.records);
        let mut i: usize = 0;
        while i < keys.len()
            invariant
                i <= keys.len(),
                keys@.no_duplicates(),
                keys@.to_set() == old(self).records@.dom(),
                self.next == old(self).next,
                self.scope_owners == old(self).scope_owners,
                self.records@.dom() == old(self).records@.dom(),
                forall|k: u64| #[trigger]
                    self.records@.contains_key(k) ==> self.records@[k].arena == old(self).records@[k].arena,
                forall|k: u64| #[trigger]
                    self.records@.contains_key(k) && seen_before(keys@, i as int, k)
                        ==> self.records@[k].subscribers@ == Set::<u64>::empty(),
            decreases keys.len() - i,
        {
            let key = keys[i];
            let ghost before = self.records@;
            assert(keys@.contains(key));
            assert(keys@.to_set().contains(key));
            match self.records.remove(&key) {
                Some(record) => {
                    let mut record = record;
                    record.subscribers.clear();
                    self.records.insert(key, record);
                },
                None => {},
            }
            proof {
                assert(self.records@.dom() =~= old(self).records@.dom());
                assert forall|k: u64| #[trigger]
                    self.records@.contains_key(k) && seen_before(keys@, i + 1, k)
                        implies self.records@[k].subscribers@
                    == Set::<u64>::empty() by {
                    if k != key {
                        assert(self.records@[k] == before[k]);
                        let j = choose|j: int| 0 <= j < i + 1 && #[trigger] keys@[j] == k;
                        assert(j < i);
                        assert(seen_before(keys@, i as int, k));
                    }
                }
            }
            i = i + 1;
        }
        proof {
            assert(self.arenas() =~= old(self).arenas());
            assert forall|id: StateId| #[trigger] self.subscribers().contains_key(id)
                implies self.subscribers()[id]
                == Set::<ScopeId>::empty() by {
                assert(self.records@.contains_key(id.0));
                assert(keys@.to_set().contains(id.0));
                assert(keys@.contains(id.0));
                let j = choose|j: int| 0 <= j < keys@.len() && keys@[j] == id.0;
                assert(seen_before(keys@, i as int, id.0));
                assert(scopes_of(Set::<u64>::empty()) =~= Set::<ScopeId>::empty());
            }
            assert(self.subscribers() =~= unsubscribed(old(self).subscribers()));
        }
    }

    /// Drops the arena of `scope`: its owner goes, which releases the values
    /// of its cells, and the cells leave the record. Cells of other arenas,
    /// and their subscribers, stay as they are.
    pub fn drop_scope_owner(&mut self, scope: ScopeId)
        requires
            old(self).wf(),
        ensures
            final(self).wf(),
            final(self).upcoming() == old(self).upcoming(),
            final(self).arena_scopes() == old(self).arena_scopes().remove(scope),
            final(self).arenas() == old(self).arenas().restrict(outside_arena(old(self).arenas(), scope)),
            final(self).subscribers() == old(self).subscribers().restrict(
                outside_arena(old(self).arenas(), scope),
            ),
    {
        let keys = key_list(&self.records);
        let mut i: usize = 0;
        while i < keys.len()
            invariant
                i <= keys.len(),
                keys@.no_duplicates(),
                keys@.to_set() == old(self).records@.dom(),
                self.next == old(self).next,
                self.scope_owners == old(self).scope_owners,
                forall|k: u64| #[trigger]
                    self.records@.contains_key(k) <==> old(self).records@.contains_key(k) && !(
                    seen_before(keys@, i as int, k) && old(self).records@[k].arena == Some(scope)),
                forall|k: u64| #[trigger]
                    self.records@.contains_key(k) ==> self.records@[k] == old(self).records@[k],
            decreases keys.len() - i,
        {
            let key = keys[i];
            let ghost before = self.records@;
            assert(keys@.contains(key));
            assert(keys@.to_set().contains(key));
            let in_arena = match self.records.get(&key) {
                Some(record) => match record.arena {
                    Some(s) => s == scope,
                    None => false,
                },
                None => false,
            };
            if in_arena {
                self.records.remove(&key);
            }
            proof {
                assert forall|k: u64| #[trigger]
                    self.records@.contains_key(k) <==> old(self).records@.contains_key(k) && !(
                    seen_before(keys@, i + 1, k) && old(self).records@[k].arena == Some(scope)) by {
                    if k == key {
                        assert(keys@[i as int] == k);
                        assert(seen_before(keys@, i + 1, k));
                        if seen_before(keys@, i as int, k) {
                            let j = choose|j: int| 0 <= j < i && #[trigger] keys@[j] == k;
                            assert(false);
                        }
                    } else {
                        if seen_before(keys@, i + 1, k) {
                            let j = choose|j: int| 0 <= j < i + 1 && #[trigger] keys@[j] == k;
                            assert(j < i);
                            assert(seen_before(keys@, i as int, k));
                        }
                        if seen_before(keys@, i as int, k) {
                            let j = choose|j: int| 0 <= j < i && #[trigger] keys@[j] == k;
                            assert(0 <= j < i + 1 && keys@[j] == k);
                        }
                    }
                }
            }
            i = i + 1;
        }
        self.scope_owners.remove(&scope.0);
        proof {
            assert(self.arena_scopes() =~= old(self).arena_scopes().remove(scope));
            let keep = outside_arena(old(self).arenas(), scope);
            assert forall|id: StateId| #[trigger]
                self.arenas().contains_key(id) <==> old(self).arenas().restrict(keep).contains_key(id) by {
                if old(self).records@.contains_key(id.0) {
                    assert(keys@.to_set().contains(id.0));
                    assert(keys@.contains(id.0));
                    let j = choose|j: int| 0 <= j < keys@.len() && keys@[j] == id.0;
                    assert(seen_before(keys@, i as int, id.0));
                }
            }
            assert(self.arenas() =~= old(self).arenas().restrict(keep));
            assert(self.subscribers() =~= old(self).subscribers().restrict(keep));
        }
    }
}

} // verus!
