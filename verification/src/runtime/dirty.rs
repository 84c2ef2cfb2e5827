//! The set of scopes that await recomposition.

use vstd::prelude::*;
use vstd::std_specs::iter::IteratorSpec;
use std::collections::HashSet;
use crate::runtime::ids::ScopeId;

verus! {

broadcast use vstd::std_specs::hash::group_hash_axioms;

/// Unordered set of scopes that were marked dirty since the last drain.
pub struct DirtySet {
    scopes: HashSet<u64>,
}

/// The scopes whose numbers are in `keys`.
pub open spec fn scopes_of(keys: Set<u64>) -> Set<ScopeId> {
    Set::new(|s: ScopeId| keys.contains(s.0))
}

/// The scopes that occur in `list`.
pub open spec fn scope_set(list: Seq<ScopeId>) -> Set<ScopeId> {
    list.to_set()
}

/// Copies the numbers of a hash set into a vector, each once, in the order in
/// which the set is walked.
pub fn scope_list(keys: &HashSet<u64>) -> (list: Vec<ScopeId>)
    ensures
        list@.no_duplicates(),
        scope_set(list@) == scopes_of(keys@),
        list@.len() == keys@.len(),
{
    let mut list: Vec<ScopeId> = Vec::new();
    let ghost all = keys.iter().remaining().unref();
    for k in it: keys.iter()
        invariant
            it.seq().unref() == all,
            list@.len() == it.index(),
            forall|i: int| 0 <= i < list@.len() ==> (#[trigger] list@[i]).0 == all[i],
    {
        list.push(ScopeId(*k));
    }
    proof {
        assert(all.no_duplicates());
        assert(all.to_set() == keys@);
        assert forall|i: int, j: int| 0 <= i < list@.len() && 0 <= j < list@.len() && i != j
            implies list@[i] != list@[j] by {
            assert(list@[i].0 == all[i]);
            assert(list@[j].0 == all[j]);
        }
        assert forall|s: ScopeId| scope_set(list@).contains(s) <==> scopes_of(keys@).contains(s) by {
            if scope_set(list@).contains(s) {
                let i = choose|i: int| 0 <= i < list@.len() && list@[i] == s;
                assert(all[i] == s.0);
                assert(all.contains(s.0));
            }
            if scopes_of(keys@).contains(s) {
                assert(all.to_set().contains(s.0));
                assert(all.contains(s.0));
                let i = choose|i: int| 0 <= i < all.len() && all[i] == s.0;
                assert(list@[i].0 == s.0);
                assert(list@[i] == s);
            }
        }
        assert(scope_set(list@) =~= scopes_of(keys@));
    }
    list
}

impl View for DirtySet {
    type V = Set<ScopeId>;

    closed spec fn view(&self) -> Set<ScopeId> {
        scopes_of(self.scopes@)
    }
}

impl DirtySet {
    /// An empty set.
    pub fn new() -> (set: DirtySet)
        ensures
            set@ == Set::<ScopeId>::empty(),
    {
        let set = DirtySet { scopes: HashSet::new() };
        assert(set@ =~= Set::<ScopeId>::empty());
        set
    }

    /// Marks `scope` as awaiting recomposition. Marking twice is the same as
    /// marking once.
    pub fn mark(&mut self, scope: ScopeId)
        ensures
            final(self)@ == old(self)@.insert(scope),
    {
        self.scopes.insert(scope.0);
        assert(self@ =~= old(self)@.insert(scope));
    }

    /// Whether any scope awaits recomposition.
    pub fn non_empty(&self) -> (b: bool)
        ensures
            b == (self@ != Set::<ScopeId>::empty()),
    {
        let b = !self.scopes.is_empty();
        proof {
            if b {
                assert(!(self.scopes@ =~= Set::<u64>::empty()));
                let k = choose|k: u64| self.scopes@.contains(k);
                assert(self@.contains(ScopeId(k)));
            } else {
                assert(self@ =~= Set::<ScopeId>::empty());
            }
        }
        b
    }

    /// Whether `scope` is marked.
    pub fn contains(&self, scope: ScopeId) -> (b: bool)
        ensures
            b == self@.contains(scope),
    {
        self.scopes.contains(&scope.0)
    }

    /// Empties the set and returns what it held: each marked scope once, in no
    /// particular order. Marks made after the drain are kept for the next one.
    pub fn drain(&mut self) -> (drained: Vec<ScopeId>)
        ensures
            final(self)@ == Set::<ScopeId>::empty(),
            drained@.no_duplicates(),
            scope_set(drained@) == old(self)@,
    {
        let drained = scope_list(&self.scopes);
        self.scopes.clear();
        assert(self@ =~= Set::<ScopeId>::empty());
        drained
    }
}

} // verus!
