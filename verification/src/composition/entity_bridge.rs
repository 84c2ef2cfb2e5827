//! Which renderer entities stand for which nodes of the composition tree.

use vstd::prelude::*;
use crate::composition::tree::CompositionId;
use crate::runtime::ids::EntityId;

verus! {

/// The mark on a renderer entity that stands for a node.
#[derive(Clone, Copy, Debug, PartialEq, Eq, Structural)]
pub struct CompositionBridge {
    pub composition_id: CompositionId,
}

/// The first of `bridges` that stands for `node`, if any does.
pub open spec fn first_bridge(bridges: Seq<(EntityId, CompositionBridge)>, node: CompositionId) -> Option<
    EntityId,
>
    decreases bridges.len(),
{
    if bridges.len() == 0 {
        None
    } else if bridges.first().1.composition_id == node {
        Some(bridges.first().0)
    } else {
        first_bridge(bridges.drop_first(), node)
    }
}

/// The entities to despawn for the removed nodes `removed`: for each node, in
/// order, the first entity that stands for it; a node that no entity stands
/// for contributes nothing.
pub open spec fn entities_of_removed(
    removed: Seq<CompositionId>,
    bridges: Seq<(EntityId, CompositionBridge)>,
) -> Seq<EntityId>
    decreases removed.len(),
{
    if removed.len() == 0 {
        Seq::empty()
    } else {
        let before = entities_of_removed(removed.drop_last(), bridges);
        match first_bridge(bridges, removed.last()) {
            Some(e) => before.push(e),
            None => before,
        }
    }
}

/// Finds the first entity that stands for `node`.
pub fn find_bridge(bridges: &Vec<(EntityId, CompositionBridge)>, node: CompositionId) -> (found: Option<EntityId>)
    ensures
        found == first_bridge(bridges@, node),
{
    let mut i: usize = 0;
    assert(bridges@.skip(0) =~= bridges@);
    while i < bridges.len()
        invariant
            i <= bridges.len(),
            first_bridge(bridges@, node) == first_bridge(bridges@.skip(i as int), node),
        decreases bridges.len() - i,
    {
        proof {
            assert(bridges@.skip(i as int).first() == bridges@[i as int]);
            assert(bridges@.skip(i as int).drop_first() =~= bridges@.skip(i + 1));
        }
        if bridges[i].1.composition_id == node {
            return Some(bridges[i].0);
        }
        i = i + 1;
    }
    assert(bridges@.skip(i as int).len() == 0);
    None
}

/// The entities that the renderer has to despawn after the nodes `removed`
/// have left the tree.
pub fn entities_to_despawn(removed: &Vec<CompositionId>, bridges: &Vec<(EntityId, CompositionBridge)>) -> (entities:
    Vec<EntityId>)
    ensures
        entities@ == entities_of_removed(removed@, bridges@),
{
    let mut entities: Vec<EntityId> = Vec::new();
    let mut i: usize = 0;
    assert(removed@.take(0).len() == 0);
    while i < removed.len()
        invariant
            i <= removed.len(),
            entities@ == entities_of_removed(removed@.take(i as int), bridges@),
        decreases removed.len() - i,
    {
        proof {
            assert(removed@.take(i + 1).drop_last() =~= removed@.take(i as int));
            assert(removed@.take(i + 1).last() == removed@[i as int]);
        }
        match find_bridge(bridges, removed[i]) {
            Some(e) => {
                entities.push(e);
            },
            None => {},
        }
        i = i + 1;
    }
    assert(removed@.take(i as int) =~= removed@);
    entities
}

} // verus!
