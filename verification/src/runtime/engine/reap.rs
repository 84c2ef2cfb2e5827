//! Scope death. A scope that the rebuild of its enclosing scope did not emit
//! again has lost its host entity; it is unregistered and its arena is
//! dropped, which frees every state that was created in it.

use vstd::prelude::*;
use crate::runtime::cells::{outside_arena, StateId};
use crate::runtime::engine::Runtime;
use crate::runtime::ids::{EntityId, ScopeId};
use crate::runtime::registry::{orphaned_child, orphans_of, ScopeInfo};

verus! {

/// The cells of `arenas` that belong to none of the arenas of `scopes`.
pub open spec fn outside_arenas(arenas: Map<StateId, Option<ScopeId>>, scopes: Set<ScopeId>) -> Set<StateId> {
    Set::new(
        |id: StateId|
            arenas.contains_key(id) && match arenas[id] {
                Some(s) => !scopes.contains(s),
                None => true,
            },
    )
}

/// Whether `after` is `before` without the scopes `gone`: they have left the
/// registry, their arenas are dropped with every cell in them, and nothing
/// else about scopes and cells has changed.
pub open spec fn scopes_dropped<C>(before: &Runtime<C>, after: &Runtime<C>, gone: Set<ScopeId>) -> bool {
    &&& after.registry() == before.registry().remove_keys(gone)
    &&& after.cells().arena_scopes() == before.cells().arena_scopes().difference(gone)
    &&& after.cells().arenas() == before.cells().arenas().restrict(
        outside_arenas(before.cells().arenas(), gone),
    )
    &&& after.cells().subscribers() == before.cells().subscribers().restrict(
        outside_arenas(before.cells().arenas(), gone),
    )
    &&& after.cells().upcoming() == before.cells().upcoming()
}

/// What reaping the children of `parent` makes of the runtime: exactly the
/// orphaned children of `parent` are dropped.
pub open spec fn reaped<C>(
    before: &Runtime<C>,
    after: &Runtime<C>,
    parent: ScopeId,
    present: Seq<EntityId>,
    gone: Seq<ScopeId>,
) -> bool {
    &&& gone.no_duplicates()
    &&& gone.to_set() == orphans_of(before.registry(), parent, present.to_set())
    &&& scopes_dropped(before, after, gone.to_set())
}

/// Whether the scope at position `at` of `gone` had lost its host and named
/// as its enclosing scope either `start` or a scope that stands earlier in
/// `gone`.
pub open spec fn died_with_parent<C>(
    registry: Map<ScopeId, ScopeInfo<C>>,
    start: ScopeId,
    present: Set<EntityId>,
    gone: Seq<ScopeId>,
    at: int,
) -> bool {
    &&& registry.contains_key(gone[at])
    &&& (orphaned_child(registry[gone[at]], start, present) || exists|j: int|
        0 <= j < at && orphaned_child(registry[gone[at]], #[trigger] gone[j], present))
}

/// What reaping everything below `start` makes of the runtime. The scopes
/// `gone` are dropped, each once. Each of them had lost its host and was
/// enclosed by `start` or by a scope that went before it; and no scope that
/// is left has lost its host and is enclosed by `start` or by a scope that
/// went. So the scopes that went are exactly those that hang below `start`
/// by a chain of scopes without host.
pub open spec fn reaped_below<C>(
    before: &Runtime<C>,
    after: &Runtime<C>,
    start: ScopeId,
    present: Seq<EntityId>,
    gone: Seq<ScopeId>,
) -> bool {
    &&& gone.no_duplicates()
    &&& scopes_dropped(before, after, gone.to_set())
    &&& forall|i: int|
        0 <= i < gone.len() ==> #[trigger] died_with_parent(before.registry(), start, present.to_set(), gone, i)
    &&& forall|s: ScopeId, p: ScopeId|
        after.registry().contains_key(s) && (p == start || gone.contains(p)) ==> !#[trigger] orphaned_child(
            after.registry()[s],
            p,
            present.to_set(),
        )
}

/// Dropping nothing changes nothing.
pub proof fn lemma_dropped_nothing<C>(rt: &Runtime<C>)
    ensures
        scopes_dropped(rt, rt, Set::<ScopeId>::empty()),
{
    let none = Set::<ScopeId>::empty();
    rt.cells().lemma_same_domain();
    assert(rt.registry() =~= rt.registry().remove_keys(none));
    assert(rt.cells().arena_scopes() =~= rt.cells().arena_scopes().difference(none));
    assert(outside_arenas(rt.cells().arenas(), none) =~= rt.cells().arenas().dom());
    assert(rt.cells().arenas() =~= rt.cells().arenas().restrict(outside_arenas(rt.cells().arenas(), none)));
    assert(rt.cells().subscribers() =~= rt.cells().subscribers().restrict(
        outside_arenas(rt.cells().arenas(), none),
    ));
}

/// Dropping some scopes and then others is dropping all of them.
pub proof fn lemma_dropped_twice<C>(
    a: &Runtime<C>,
    b: &Runtime<C>,
    c: &Runtime<C>,
    first: Set<ScopeId>,
    second: Set<ScopeId>,
)
    requires
        scopes_dropped(a, b, first),
        scopes_dropped(b, c, second),
    ensures
        scopes_dropped(a, c, first.union(second)),
{
    let both = first.union(second);
    a.cells().lemma_same_domain();
    b.cells().lemma_same_domain();
    assert(c.registry() =~= a.registry().remove_keys(both));
    assert(c.cells().arena_scopes() =~= a.cells().arena_scopes().difference(both));
    assert(outside_arenas(b.cells().arenas(), second).intersect(b.cells().arenas().dom()) =~= outside_arenas(
        a.cells().arenas(),
        both,
    ));
    assert(c.cells().arenas() =~= a.cells().arenas().restrict(outside_arenas(a.cells().arenas(), both)));
    assert(c.cells().subscribers() =~= a.cells().subscribers().restrict(
        outside_arenas(a.cells().arenas(), both),
    ));
}

/// A scope that was not emitted again by the rebuild of its enclosing scope
/// is gone after the rebuild: it is no longer registered, it has no arena,
/// and no state that was created in it is live.
pub proof fn lemma_unemitted_child_is_reaped<C>(
    before: &Runtime<C>,
    after: &Runtime<C>,
    parent: ScopeId,
    present: Seq<EntityId>,
    gone: Seq<ScopeId>,
    child: ScopeId,
)
    requires
        reaped_below(before, after, parent, present, gone),
        before.registry().contains_key(child),
        orphaned_child(before.registry()[child], parent, present.to_set()),
    ensures
        gone.contains(child),
        !after.registry().contains_key(child),
        !after.cells().arena_scopes().contains(child),
        forall|id: StateId| #[trigger]
            before.cells().arenas().contains_key(id) && before.cells().arenas()[id] == Some(child)
                ==> !after.cells().live(id),
{
    if !gone.contains(child) {
        assert(!gone.to_set().contains(child));
        assert(after.registry().contains_key(child));
        assert(after.registry()[child] == before.registry()[child]);
        assert(!orphaned_child(after.registry()[child], parent, present.to_set()));
    }
    assert(gone.to_set().contains(child));
}

/// A scope below a scope that went, whose host is gone too, went with it.
pub proof fn lemma_descendants_are_reaped<C>(
    before: &Runtime<C>,
    after: &Runtime<C>,
    start: ScopeId,
    present: Seq<EntityId>,
    gone: Seq<ScopeId>,
    above: ScopeId,
    below: ScopeId,
)
    requires
        reaped_below(before, after, start, present, gone),
        gone.contains(above),
        before.registry().contains_key(below),
        orphaned_child(before.registry()[below], above, present.to_set()),
    ensures
        gone.contains(below),
        !after.registry().contains_key(below),
        !after.cells().arena_scopes().contains(below),
{
    if !gone.contains(below) {
        assert(!gone.to_set().contains(below));
        assert(after.registry().contains_key(below));
        assert(after.registry()[below] == before.registry()[below]);
        assert(!orphaned_child(after.registry()[below], above, present.to_set()));
    }
    assert(gone.to_set().contains(below));
}

/// A state that was created in a scope that stays, or outside any scope,
/// stays too, with its subscribers.
pub proof fn lemma_other_arenas_survive<C>(
    before: &Runtime<C>,
    after: &Runtime<C>,
    gone: Set<ScopeId>,
    id: StateId,
)
    requires
        scopes_dropped(before, after, gone),
        before.cells().live(id),
        match before.cells().arenas()[id] {
            Some(s) => !gone.contains(s),
            None => true,
        },
    ensures
        after.cells().live(id),
        after.cells().arenas()[id] == before.cells().arenas()[id],
        after.cells().subscribers()[id] == before.cells().subscribers()[id],
{
    before.cells().lemma_same_domain();
}

impl<C> Runtime<C> {
    /// The registry holds finitely many scopes.
    pub proof fn lemma_registry_finite(&self)
        ensures
            self.registry().dom().finite(),
    {
        self.registry.lemma_finite();
    }

    /// Unregisters the scopes that name `parent` as their enclosing scope and
    /// whose host entity is not among `present`, and drops their arenas.
    /// Returns them.
    pub fn reap_children(&mut self, parent: ScopeId, present: &Vec<EntityId>) -> (gone: Vec<ScopeId>)
        requires
            old(self).wf(),
        ensures
            final(self).wf(),
            final(self).same_but_scopes(old(self)),
            reaped(old(self), final(self), parent, present@, gone@),
    {
        let gone = self.registry.orphaned_children(parent, present);
        let mut i: usize = 0;
        proof {
            assert(gone@.take(0).to_set() =~= Set::<ScopeId>::empty());
            lemma_dropped_nothing(&*self);
        }
        while i < gone.len()
            invariant
                i <= gone.len(),
                self.wf(),
                self.same_but_scopes(old(self)),
                scopes_dropped(old(self), &*self, gone@.take(i as int).to_set()),
            decreases gone.len() - i,
        {
            let ghost mid = *self;
            let scope = gone[i];
            self.unregister_scope(scope);
            proof {
                gone@.take(i as int).lemma_push_to_set_commute(scope);
                assert(gone@.take(i + 1) =~= gone@.take(i as int).push(scope));
                assert(gone@.take(i + 1).to_set() =~= gone@.take(i as int).to_set().union(set![scope]));
                assert(self.registry() =~= mid.registry().remove_keys(set![scope]));
                assert(self.cells().arena_scopes() =~= mid.cells().arena_scopes().difference(set![scope]));
                assert(outside_arena(mid.cells().arenas(), scope) =~= outside_arenas(
                    mid.cells().arenas(),
                    set![scope],
                ));
                lemma_dropped_twice(old(self), &mid, &*self, gone@.take(i as int).to_set(), set![scope]);
            }
            i = i + 1;
        }
        assert(gone@.take(i as int) =~= gone@);
        gone
    }

    /// Unregisters every scope that hangs below `start` by a chain of scopes
    /// whose host entities are not among `present`, and drops their arenas:
    /// first the children of `start` without host, then the children without
    /// host of those, and so on. Returns them, each behind the scope that
    /// enclosed it.
    pub fn reap_descendants(&mut self, start: ScopeId, present: &Vec<EntityId>) -> (gone: Vec<ScopeId>)
        requires
            old(self).wf(),
        ensures
            final(self).wf(),
            final(self).same_but_scopes(old(self)),
            reaped_below(old(self), final(self), start, present@, gone@),
    {
        let mut gone: Vec<ScopeId> = Vec::new();
        let mut work: Vec<ScopeId> = Vec::new();
        work.push(start);
        let ghost total = old(self).registry().dom().len() as int;
        proof {
            old(self).lemma_registry_finite();
            lemma_dropped_nothing(&*self);
            assert(gone@.to_set() =~= Set::<ScopeId>::empty());
            assert(work@[0] == start);
        }
        while work.len() > 0
            invariant
                self.wf(),
                self.same_but_scopes(old(self)),
                old(self).registry().dom().finite(),
                total == old(self).registry().dom().len(),
                gone@.len() <= total,
                gone@.no_duplicates(),
                scopes_dropped(old(self), &*self, gone@.to_set()),
                forall|i: int|
                    0 <= i < gone@.len() ==> #[trigger] died_with_parent(
                        old(self).registry(),
                        start,
                        present@.to_set(),
                        gone@,
                        i,
                    ),
                forall|k: int| 0 <= k < work@.len() ==> #[trigger] work@[k]
                    == start || gone@.contains(work@[k]),
                forall|s: ScopeId, p: ScopeId|
                    self.registry().contains_key(s) && (p == start || gone@.contains(p)) && !work@.contains(p)
                        ==> !#[trigger] orphaned_child(self.registry()[s], p, present@.to_set()),
            decreases (total - gone@.len()) * 2 + work@.len(),
        {
            let ghost mid = *self;
            let ghost gone_before = gone@;
            let ghost work_before = work@;
            let parent = match work.pop() {
                Some(p) => p,
                None => start,
            };
            assert(parent == work_before.last());
            assert(work@ =~= work_before.drop_last());
            let mut more = self.reap_children(parent, present);
            let ghost fresh = more@;
            proof {
                let orphans = orphans_of(mid.registry(), parent, present@.to_set());
                // what went now was still registered, so it had not gone before
                assert forall|a: int, b: int| 0 <= a < gone_before.len()
                    && 0 <= b < fresh.len() implies gone_before[a]
                    != fresh[b] by {
                    assert(fresh.to_set().contains(fresh[b]));
                    assert(mid.registry().contains_key(fresh[b]));
                    assert(gone_before.to_set().contains(gone_before[a]));
                }
                assert((gone_before + fresh).no_duplicates()) by {
                    assert forall|a: int, b: int|
                        0 <= a < (gone_before + fresh).len() && 0 <= b < (gone_before + fresh).len() && a
                            != b implies (gone_before + fresh)[a] != (gone_before + fresh)[b] by {
                        if a < gone_before.len() && b >= gone_before.len() {
                            assert(gone_before[a] != fresh[b - gone_before.len()]);
                        }
                        if b < gone_before.len() && a >= gone_before.len() {
                            assert(gone_before[b] != fresh[a - gone_before.len()]);
                        }
                    }
                }
                vstd::seq_lib::seq_to_set_distributes_over_add(gone_before, fresh);
                lemma_dropped_twice(old(self), &mid, &*self, gone_before.to_set(), fresh.to_set());
            }
            let mut i: usize = 0;
            while i < more.len()
                invariant
                    i <= more.len(),
                    work_before.len() > 0,
                    more@ == fresh,
                    gone@ == gone_before + fresh.take(i as int),
                    work@ == work_before.drop_last() + fresh.take(i as int),
                decreases more.len() - i,
            {
                gone.push(more[i]);
                work.push(more[i]);
                proof {
                    assert(fresh.take(i + 1) =~= fresh.take(i as int).push(fresh[i as int]));
                    assert(gone@ =~= gone_before + fresh.take(i + 1));
                    assert(work@ =~= work_before.drop_last() + fresh.take(i + 1));
                }
                i = i + 1;
            }
            proof {
                assert(fresh.take(i as int) =~= fresh);
                assert(gone@ =~= gone_before + fresh);
                // the scopes that went are registered scopes, each once
                assert(gone@.to_set().subset_of(old(self).registry().dom())) by {
                    assert forall|s: ScopeId| gone@.to_set().contains(s)
                        implies old(self).registry().dom().contains(s) by {
                        let at = choose|at: int| 0 <= at < gone@.len() && gone@[at] == s;
                        if at < gone_before.len() {
                            assert(died_with_parent(
                                old(self).registry(),
                                start,
                                present@.to_set(),
                                gone_before,
                                at,
                            ));
                        } else {
                            assert(fresh.to_set().contains(fresh[at - gone_before.len()]));
                            assert(mid.registry().contains_key(s));
                        }
                    }
                }
                vstd::set_lib::lemma_len_subset(gone@.to_set(), old(self).registry().dom());
                gone@.unique_seq_to_set();
                // each of them went with its parent
                assert forall|at: int| 0 <= at < gone@.len() implies #[trigger] died_with_parent(
                    old(self).registry(),
                    start,
                    present@.to_set(),
                    gone@,
                    at,
                ) by {
                    if at < gone_before.len() {
                        assert(died_with_parent(
                            old(self).registry(),
                            start,
                            present@.to_set(),
                            gone_before,
                            at,
                        ));
                        if !orphaned_child(old(self).registry()[gone@[at]], start, present@.to_set()) {
                            let j = choose|j: int|
                                0 <= j < at && orphaned_child(
                                    old(self).registry()[gone_before[at]],
                                    #[trigger] gone_before[j],
                                    present@.to_set(),
                                );
                            assert(gone@[j] == gone_before[j]);
                        }
                    } else {
                        let s = gone@[at];
                        assert(s == fresh[at - gone_before.len()]);
                        assert(fresh.to_set().contains(s));
                        assert(mid.registry().contains_key(s));
                        assert(mid.registry()[s] == old(self).registry()[s]);
                        assert(orphaned_child(mid.registry()[s], parent, present@.to_set()));
                        if parent != start {
                            assert(gone_before.contains(parent));
                            let j = choose|j: int| 0 <= j < gone_before.len() && gone_before[j] == parent;
                            assert(gone@[j] == parent);
                        }
                    }
                }
                // what is still to do is `start` or has gone
                assert forall|k: int| 0 <= k < work@.len() implies #[trigger] work@[k]
                    == start || gone@.contains(
                    work@[k],
                ) by {
                    if k < work_before.len() - 1 {
                        assert(work@[k] == work_before[k]);
                        if work_before[k] != start {
                            let j = choose|j: int| 0 <= j < gone_before.len() && gone_before[j]
                                == work_before[k];
                            assert(gone@[j] == work_before[k]);
                        }
                    } else {
                        let b = k - (work_before.len() - 1);
                        assert(work@[k] == fresh[b]);
                        assert(gone@[gone_before.len() + b] == fresh[b]);
                    }
                }
                // nothing that is left hangs below what is done
                assert forall|s: ScopeId, p: ScopeId|
                    self.registry().contains_key(s) && (p == start || gone@.contains(p)) && !work@.contains(
                        p,
                    ) implies !#[trigger] orphaned_child(self.registry()[s], p, present@.to_set()) by {
                    assert(mid.registry().contains_key(s));
                    assert(self.registry()[s] == mid.registry()[s]);
                    if p == parent {
                        if orphaned_child(mid.registry()[s], p, present@.to_set()) {
                            assert(fresh.to_set().contains(s));
                        }
                    } else {
                        if gone@.contains(p) && !gone_before.contains(p) {
                            let j = choose|j: int| 0 <= j < gone@.len() && gone@[j] == p;
                            assert(j >= gone_before.len());
                            assert(work@[work_before.len() - 1 + (j - gone_before.len())] == p);
                            assert(false);
                        }
                        if work_before.contains(p) {
                            let k = choose|k: int| 0 <= k < work_before.len() && work_before[k] == p;
                            if k < work_before.len() - 1 {
                                assert(work@[k] == p);
                            }
                            assert(false);
                        }
                    }
                }
            }
        }
        proof {
            assert forall|s: ScopeId, p: ScopeId|
                self.registry().contains_key(s) && (p == start || gone@.contains(p))
                    implies !#[trigger] orphaned_child(
                    self.registry()[s],
                    p,
                    present@.to_set(),
                ) by {
                assert(!work@.contains(p));
            }
        }
        gone
    }
}

} // verus!
