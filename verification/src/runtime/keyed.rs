//! Maps and sets that are stored under plain numbers and read under typed
//! identifiers.

use vstd::prelude::*;
use vstd::std_specs::iter::IteratorSpec;
use std::collections::HashMap;
use std::collections::HashSet;
use crate::runtime::ids::{EntityId, ScopeId};

verus! {

broadcast use vstd::std_specs::hash::group_hash_axioms;

/// Whether `key` occurs among the first `n` items of `keys`.
pub open spec fn seen_before(keys: Seq<u64>, n: int, key: u64) -> bool {
    exists|j: int| 0 <= j < n && #[trigger] keys[j] == key
}

/// The keys of a hash map, each once, in the order in which the map is walked.
pub fn key_list<V>(map: &HashMap<u64, V>) -> (keys: Vec<u64>)
    ensures
        keys@.no_duplicates(),
        keys@.to_set() == map@.dom(),
{
    let mut keys: Vec<u64> = Vec::new();
    let ghost all = map.keys().remaining().unref();
    for k in it: map.keys()
        invariant
            it.seq().unref() == all,
            keys@ == all.take(it.index() as int),
    {
        keys.push(*k);
        assert(all.take(it.index() + 1) =~= all.take(it.index() as int).push(all[it.index() as int]));
    }
    assert(keys@ =~= all);
    keys
}

/// The numbers in a hash set, each once, in the order in which the set is
/// walked.
pub fn set_list(set: &HashSet<u64>) -> (keys: Vec<u64>)
    ensures
        keys@.no_duplicates(),
        keys@.to_set() == set@,
{
    let mut keys: Vec<u64> = Vec::new();
    let ghost all = set.iter().remaining().unref();
    for k in it: set.iter()
        invariant
            it.seq().unref() == all,
            keys@ == all.take(it.index() as int),
    {
        keys.push(*k);
        assert(all.take(it.index() + 1) =~= all.take(it.index() as int).push(all[it.index() as int]));
    }
    assert(keys@ =~= all);
    keys
}

/// The map `m`, read with scope identifiers as keys.
pub open spec fn by_scope<V>(m: Map<u64, V>) -> Map<ScopeId, V> {
    Map::new(|s: ScopeId| m.contains_key(s.0), |s: ScopeId| m[s.0])
}

/// The map `m`, read with entity identifiers as keys.
pub open spec fn by_entity<V>(m: Map<u64, V>) -> Map<EntityId, V> {
    Map::new(|e: EntityId| m.contains_key(e.0), |e: EntityId| m[e.0])
}

/// Read under scope identifiers, the empty map is empty.
pub proof fn lemma_by_scope_empty<V>()
    ensures
        by_scope(Map::<u64, V>::empty()) == Map::<ScopeId, V>::empty(),
{
    assert(by_scope(Map::<u64, V>::empty()) =~= Map::<ScopeId, V>::empty());
}

/// Inserting under a number is inserting under its scope identifier.
pub proof fn lemma_by_scope_insert<V>(m: Map<u64, V>, s: ScopeId, v: V)
    ensures
        by_scope(m.insert(s.0, v)) == by_scope(m).insert(s, v),
{
    assert(by_scope(m.insert(s.0, v)) =~= by_scope(m).insert(s, v));
}

/// Removing a number is removing its scope identifier.
pub proof fn lemma_by_scope_remove<V>(m: Map<u64, V>, s: ScopeId)
    ensures
        by_scope(m.remove(s.0)) == by_scope(m).remove(s),
{
    assert(by_scope(m.remove(s.0)) =~= by_scope(m).remove(s));
}

/// Read under entity identifiers, the empty map is empty.
pub proof fn lemma_by_entity_empty<V>()
    ensures
        by_entity(Map::<u64, V>::empty()) == Map::<EntityId, V>::empty(),
{
    assert(by_entity(Map::<u64, V>::empty()) =~= Map::<EntityId, V>::empty());
}

/// Inserting under a number is inserting under its entity identifier.
pub proof fn lemma_by_entity_insert<V>(m: Map<u64, V>, e: EntityId, v: V)
    ensures
        by_entity(m.insert(e.0, v)) == by_entity(m).insert(e, v),
{
    assert(by_entity(m.insert(e.0, v)) =~= by_entity(m).insert(e, v));
}

/// Removing a number is removing its entity identifier.
pub proof fn lemma_by_entity_remove<V>(m: Map<u64, V>, e: EntityId)
    ensures
        by_entity(m.remove(e.0)) == by_entity(m).remove(e),
{
    assert(by_entity(m.remove(e.0)) =~= by_entity(m).remove(e));
}

} // verus!
