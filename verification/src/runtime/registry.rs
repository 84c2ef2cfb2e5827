//! The registry of scopes: for each scoped container, how to re-run its
//! content, which scope encloses it, and which entity hosts its output.

use vstd::prelude::*;
use vstd::std_specs::iter::IteratorSpec;
use std::collections::HashMap;
use crate::runtime::ids::{EntityId, ScopeId};
use crate::runtime::keyed::{
    by_scope, lemma_by_scope_empty, lemma_by_scope_insert, lemma_by_scope_remove, seen_before,
};

verus! {

broadcast use vstd::std_specs::hash::group_hash_axioms;

/// What the registry keeps of one scope. `C` is the content: whatever the host
/// needs in order to emit the scope's children again.
pub struct ScopeInfo<C> {
    /// The content to run when the scope is recomposed.
    pub content_fn: C,
    /// The scope that was topmost when this one was registered.
    pub parent_scope: Option<ScopeId>,
    /// The host entity whose children are the scope's output, once it is set.
    pub root_entity: Option<EntityId>,
}

/// Map from scope identifier to what is known of the scope.
pub struct ScopeRegistry<C> {
    scopes: HashMap<u64, ScopeInfo<C>>,
}

/// The entry of `scope_id` after it was registered with `content_fn` and
/// `parent_scope`: the content is the new one; the enclosing scope and the
/// host are those of the entry that was there, and the given enclosing scope
/// and no host where there was none.
pub open spec fn registered<C>(
    registry: Map<ScopeId, ScopeInfo<C>>,
    scope_id: ScopeId,
    content_fn: C,
    parent_scope: Option<ScopeId>,
) -> ScopeInfo<C> {
    if registry.contains_key(scope_id) {
        ScopeInfo {
            content_fn,
            parent_scope: registry[scope_id].parent_scope,
            root_entity: registry[scope_id].root_entity,
        }
    } else {
        ScopeInfo { content_fn, parent_scope, root_entity: None }
    }
}

/// Whether `info` names `parent` as its enclosing scope and none of the
/// entities in `present` as its host.
pub open spec fn orphaned_child<C>(info: ScopeInfo<C>, parent: ScopeId, present: Set<EntityId>) -> bool {
    &&& info.parent_scope == Some(parent)
    &&& match info.root_entity {
        Some(e) => !present.contains(e),
        None => true,
    }
}

/// The scopes of `map` that are orphaned children of `parent`.
pub open spec fn orphans_of<C>(map: Map<ScopeId, ScopeInfo<C>>, parent: ScopeId, present: Set<EntityId>) -> Set<ScopeId> {
    Set::new(|s: ScopeId| map.contains_key(s) && orphaned_child(map[s], parent, present))
}

impl<C> View for ScopeRegistry<C> {
    type V = Map<ScopeId, ScopeInfo<C>>;

    closed spec fn view(&self) -> Map<ScopeId, ScopeInfo<C>> {
        by_scope(self.scopes@)
    }
}

impl<C> ScopeRegistry<C> {
    /// A registry without scopes.
    pub fn new() -> (registry: ScopeRegistry<C>)
        ensures
            registry@ == Map::<ScopeId, ScopeInfo<C>>::empty(),
    {
        proof {
            lemma_by_scope_empty::<ScopeInfo<C>>();
        }
        ScopeRegistry { scopes: HashMap::new() }
    }

    /// Registers `scope_id`. A scope that is not registered yet gets an entry
    /// with the given content and enclosing scope and without a host entity.
    /// A scope that is registered already gets the new content and keeps its
    /// enclosing scope and its host: that is how a scope that is emitted
    /// again has its content refreshed.
    pub fn register_scope(&mut self, scope_id: ScopeId, content_fn: C, parent_scope: Option<ScopeId>)
        ensures
            final(self)@ == old(self)@.insert(scope_id, registered(old(self)@, scope_id, content_fn, parent_scope)),
    {
        let info = match self.scopes.remove(&scope_id.0) {
            Some(known) => ScopeInfo {
                content_fn,
                parent_scope: known.parent_scope,
                root_entity: known.root_entity,
            },
            None => ScopeInfo { content_fn, parent_scope, root_entity: None },
        };
        proof {
            assert(self.scopes@.insert(scope_id.0, info) =~= old(self).scopes@.insert(scope_id.0, info));
            lemma_by_scope_insert(old(self).scopes@, scope_id, info);
        }
        self.scopes.insert(scope_id.0, info);
    }

    /// Sets the host entity of a registered scope. For an unknown scope
    /// nothing happens.
    pub fn set_scope_root_entity(&mut self, scope_id: ScopeId, entity: EntityId)
        ensures
            final(self)@ == (if old(self)@.contains_key(scope_id) {
                old(self)@.insert(
                    scope_id,
                    (ScopeInfo {
                        content_fn: old(self)@[scope_id].content_fn,
                        parent_scope: old(self)@[scope_id].parent_scope,
                        root_entity: Some(entity),
                    }),
                )
            } else {
                old(self)@
            }),
    {
        match self.scopes.remove(&scope_id.0) {
            Some(info) => {
                let updated = ScopeInfo {
                    content_fn: info.content_fn,
                    parent_scope: info.parent_scope,
                    root_entity: Some(entity),
                };
                proof {
                    lemma_by_scope_insert(self.scopes@, scope_id, updated);
                    assert(self.scopes@.insert(scope_id.0, updated) =~= old(self).scopes@.insert(
                        scope_id.0,
                        updated,
                    ));
                    lemma_by_scope_insert(old(self).scopes@, scope_id, updated);
                }
                self.scopes.insert(scope_id.0, updated);
            },
            None => {
                assert(self.scopes@ =~= old(self).scopes@);
            },
        }
    }

    /// The entry of `scope_id`, if it is registered.
    pub fn get_scope_info(&self, scope_id: ScopeId) -> (info: Option<&ScopeInfo<C>>)
        ensures
            info == (if self@.contains_key(scope_id) {
                Some(&self@[scope_id])
            } else {
                None
            }),
    {
        self.scopes.get(&scope_id.0)
    }

    /// Whether `scope_id` is registered.
    pub fn is_registered(&self, scope_id: ScopeId) -> (b: bool)
        ensures
            b == self@.contains_key(scope_id),
    {
        self.scopes.contains_key(&scope_id.0)
    }

    /// Number of registered scopes.
    pub fn len(&self) -> (n: usize)
        ensures
            n == self@.dom().len(),
    {
        proof {
            Self::lemma_same_size(self.scopes@);
        }
        self.scopes.len()
    }

    /// Removes the entry of `scope_id`, and with it the content that the
    /// registry held. Says whether there was one.
    pub fn unregister_scope(&mut self, scope_id: ScopeId) -> (was_registered: bool)
        ensures
            final(self)@ == old(self)@.remove(scope_id),
            was_registered == old(self)@.contains_key(scope_id),
    {
        proof {
            lemma_by_scope_remove(self.scopes@, scope_id);
        }
        let removed = self.scopes.remove(&scope_id.0);
        removed.is_some()
    }

    /// The registered scopes that name `parent` as their enclosing scope and
    /// whose host entity is not among `present`: the children that a rebuild
    /// of `parent` did not emit again. Each is listed once.
    pub fn orphaned_children(&self, parent: ScopeId, present: &Vec<EntityId>) -> (orphans: Vec<ScopeId>)
        ensures
            orphans@.no_duplicates(),
            orphans@.to_set() == orphans_of(self@, parent, present@.to_set()),
    {
        let mut orphans: Vec<ScopeId> = Vec::new();
        let ghost all = self.scopes.keys().remaining().unref();
        let ghost want = orphans_of(self@, parent, present@.to_set());
        for k in it: self.scopes.keys()
            invariant
                it.seq().unref() == all,
                all.no_duplicates(),
                all.to_set() == self.scopes@.dom(),
                want == orphans_of(self@, parent, present@.to_set()),
                orphans@.no_duplicates(),
                forall|s: ScopeId| #[trigger] orphans@.contains(s) ==> want.contains(s),
                forall|s: ScopeId|
                    #[trigger] orphans@.contains(s) ==> seen_before(all, it.index() as int, s.0),
                forall|j: int|
                    0 <= j < it.index() && want.contains(ScopeId(#[trigger] all[j]))
                        ==> orphans@.contains(ScopeId(all[j])),
        {
            let ghost idx = it.index();
            assert(all[idx] == *k);
            assert(all.contains(*k));
            assert(self.scopes@.dom().contains(*k));
            let info = self.scopes.get(k);
            match info {
                Some(info) => {
                    let is_child = match info.parent_scope {
                        Some(p) => p == parent,
                        None => false,
                    };
                    let gone = match info.root_entity {
                        Some(e) => !contains_entity(present, e),
                        None => true,
                    };
                    if is_child && gone {
                        assert(self@.contains_key(ScopeId(*k)));
                        assert(self@[ScopeId(*k)] == *info);
                        assert(want.contains(ScopeId(*k)));
                        let ghost before = orphans@;
                        proof {
                            if before.contains(ScopeId(*k)) {
                                let j = choose|j: int| 0 <= j < idx && all[j] == ScopeId(*k).0;
                                assert(all[j] == all[idx]);
                            }
                        }
                        orphans.push(ScopeId(*k));
                        proof {
                            assert forall|s: ScopeId| #[trigger] orphans@.contains(s) implies want.contains(
                                s,
                            ) && seen_before(all, idx + 1, s.0) by {
                                if before.contains(s) {
                                    let j = choose|j: int| 0 <= j < idx && all[j] == s.0;
                                    assert(0 <= j < idx + 1 && all[j] == s.0);
                                } else {
                                    let i = choose|i: int| 0 <= i < orphans@.len() && orphans@[i] == s;
                                    if i < before.len() {
                                        assert(before[i] == s);
                                    }
                                    assert(s == ScopeId(*k));
                                    assert(all[idx] == s.0);
                                }
                            }
                            assert forall|j: int|
                                0 <= j < idx + 1 && want.contains(
                                    ScopeId(#[trigger] all[j]),
                                ) implies orphans@.contains(ScopeId(all[j])) by {
                                if j < idx {
                                    assert(before.contains(ScopeId(all[j])));
                                    let i = choose|i: int| 0 <= i < before.len() && before[i]
                                        == ScopeId(all[j]);
                                    assert(orphans@[i] == ScopeId(all[j]));
                                } else {
                                    assert(orphans@[before.len() as int] == ScopeId(*k));
                                }
                            }
                        }
                    } else {
                        proof {
                            assert(!want.contains(ScopeId(*k)));
                            assert forall|s: ScopeId| #[trigger] orphans@.contains(s)
                                implies seen_before(all, idx + 1, s.0) by {
                                let j = choose|j: int| 0 <= j < idx && all[j] == s.0;
                                assert(0 <= j < idx + 1 && all[j] == s.0);
                            }
                        }
                    }
                },
                None => {
                    proof {
                        assert forall|s: ScopeId| #[trigger] orphans@.contains(s)
                            implies seen_before(all, idx + 1, s.0) by {
                            let j = choose|j: int| 0 <= j < idx && all[j] == s.0;
                            assert(0 <= j < idx + 1 && all[j] == s.0);
                        }
                    }
                },
            }
        }
        proof {
            assert forall|s: ScopeId| orphans@.to_set().contains(s) <==> want.contains(s) by {
                if want.contains(s) {
                    assert(self.scopes@.dom().contains(s.0));
                    assert(all.to_set().contains(s.0));
                    assert(all.contains(s.0));
                    let j = choose|j: int| 0 <= j < all.len() && all[j] == s.0;
                    assert(want.contains(ScopeId(all[j])));
                }
            }
            assert(orphans@.to_set() =~= want);
        }
        orphans
    }

    /// The registry holds finitely many scopes.
    pub proof fn lemma_finite(&self)
        ensures
            self@.dom().finite(),
    {
        Self::lemma_same_size(self.scopes@);
    }

    proof fn lemma_same_size(m: Map<u64, ScopeInfo<C>>)
        requires
            m.dom().finite(),
        ensures
            by_scope(m).dom().finite(),
            by_scope(m).dom().len() == m.dom().len(),
        decreases m.dom().len(),
    {
        if m.dom().len() == 0 {
            assert(m.dom() =~= Set::<u64>::empty());
            assert(by_scope(m).dom() =~= Set::<ScopeId>::empty());
        } else {
            let k = m.dom().choose();
            let rest = m.remove(k);
            Self::lemma_same_size(rest);
            assert(by_scope(m).dom() =~= by_scope(rest).dom().insert(ScopeId(k)));
            assert(!by_scope(rest).dom().contains(ScopeId(k)));
        }
    }
}

/// Whether `entity` occurs in `list`.
pub fn contains_entity(list: &Vec<EntityId>, entity: EntityId) -> (found: bool)
    ensures
        found == list@.contains(entity),
{
    let mut i: usize = 0;
    while i < list.len()
        invariant
            i <= list.len(),
            forall|j: int| 0 <= j < i ==> list@[j] != entity,
        decreases list.len() - i,
    {
        if list[i] == entity {
            return true;
        }
        i = i + 1;
    }
    false
}

} // verus!
