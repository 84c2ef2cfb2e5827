//! What of a tree needs to be brought up to date, and the pass that marks
//! recomposed nodes clean.

use vstd::prelude::*;
use std::collections::HashSet;
use crate::composition::tree::{nodes_of, CompositionId, CompositionNode, CompositionTree};
use crate::runtime::keyed::set_list;

verus! {

broadcast use vstd::std_specs::hash::group_hash_axioms;

/// The nodes that need recomposition, layout and painting.
pub struct DirtyFlags {
    needs_recomposition: HashSet<u64>,
    needs_layout: HashSet<u64>,
    needs_paint: HashSet<u64>,
}

/// The length of the chain of parents that starts at `id`, followed for at
/// most `budget` nodes: a node that the tree lacks, or that has no parent,
/// ends the chain.
pub open spec fn depth_within<M, S>(
    nodes: Map<CompositionId, CompositionNode<M, S>>,
    id: CompositionId,
    budget: nat,
) -> nat
    decreases budget,
{
    if budget == 0 || !nodes.contains_key(id) {
        0
    } else {
        match nodes[id].parent {
            Some(parent) => 1 + depth_within(nodes, parent, (budget - 1) as nat),
            None => 0,
        }
    }
}

/// The depth of a node: the length of its chain of parents, followed for at
/// most as many nodes as the tree has. In a tree without cycles that is the
/// whole chain.
pub open spec fn depth_of<M, S>(nodes: Map<CompositionId, CompositionNode<M, S>>, id: CompositionId) -> nat {
    depth_within(nodes, id, nodes.dom().len())
}

/// `nodes`, with the nodes of `ids` marked as recomposed.
pub open spec fn cleaned<M, S>(nodes: Map<CompositionId, CompositionNode<M, S>>, ids: Set<CompositionId>) -> Map<
    CompositionId,
    CompositionNode<M, S>,
> {
    Map::new(
        |id: CompositionId| nodes.contains_key(id),
        |id: CompositionId|
            if ids.contains(id) {
                CompositionNode { dirty: false, ..nodes[id] }
            } else {
                nodes[id]
            },
    )
}

impl DirtyFlags {
    /// The nodes that need recomposition.
    pub closed spec fn recomposition(&self) -> Set<CompositionId> {
        nodes_of(self.needs_recomposition@)
    }

    /// The nodes that need layout.
    pub closed spec fn layout(&self) -> Set<CompositionId> {
        nodes_of(self.needs_layout@)
    }

    /// The nodes that need painting.
    pub closed spec fn paint(&self) -> Set<CompositionId> {
        nodes_of(self.needs_paint@)
    }

    /// Flags without any node.
    pub fn new() -> (flags: DirtyFlags)
        ensures
            flags.recomposition() == Set::<CompositionId>::empty(),
            flags.layout() == Set::<CompositionId>::empty(),
            flags.paint() == Set::<CompositionId>::empty(),
    {
        let flags = DirtyFlags {
            needs_recomposition: HashSet::new(),
            needs_layout: HashSet::new(),
            needs_paint: HashSet::new(),
        };
        assert(flags.recomposition() =~= Set::<CompositionId>::empty());
        assert(flags.layout() =~= Set::<CompositionId>::empty());
        assert(flags.paint() =~= Set::<CompositionId>::empty());
        flags
    }

    /// Notes that `id` needs recomposition, and with it layout and painting.
    pub fn mark_recomposition(&mut self, id: CompositionId)
        ensures
            final(self).recomposition() == old(self).recomposition().insert(id),
            final(self).layout() == old(self).layout().insert(id),
            final(self).paint() == old(self).paint().insert(id),
    {
        self.needs_recomposition.insert(id.0);
        self.needs_layout.insert(id.0);
        self.needs_paint.insert(id.0);
        assert(self.recomposition() =~= old(self).recomposition().insert(id));
        assert(self.layout() =~= old(self).layout().insert(id));
        assert(self.paint() =~= old(self).paint().insert(id));
    }

    /// Notes that `id` needs layout, and with it painting.
    pub fn mark_layout(&mut self, id: CompositionId)
        ensures
            final(self).recomposition() == old(self).recomposition(),
            final(self).layout() == old(self).layout().insert(id),
            final(self).paint() == old(self).paint().insert(id),
    {
        self.needs_layout.insert(id.0);
        self.needs_paint.insert(id.0);
        assert(self.layout() =~= old(self).layout().insert(id));
        assert(self.paint() =~= old(self).paint().insert(id));
    }

    /// Notes that `id` needs painting.
    pub fn mark_paint(&mut self, id: CompositionId)
        ensures
            final(self).recomposition() == old(self).recomposition(),
            final(self).layout() == old(self).layout(),
            final(self).paint() == old(self).paint().insert(id),
    {
        self.needs_paint.insert(id.0);
        assert(self.paint() =~= old(self).paint().insert(id));
    }

    /// Forgets every note.
    pub fn clear(&mut self)
        ensures
            final(self).recomposition() == Set::<CompositionId>::empty(),
            final(self).layout() == Set::<CompositionId>::empty(),
            final(self).paint() == Set::<CompositionId>::empty(),
    {
        self.needs_recomposition.clear();
        self.needs_layout.clear();
        self.needs_paint.clear();
        assert(self.recomposition() =~= Set::<CompositionId>::empty());
        assert(self.layout() =~= Set::<CompositionId>::empty());
        assert(self.paint() =~= Set::<CompositionId>::empty());
    }

    /// Whether nothing is noted.
    pub fn is_empty(&self) -> (b: bool)
        ensures
            b == (self.recomposition() == Set::<CompositionId>::empty() && self.layout() == Set::<
                CompositionId,
            >::empty() && self.paint() == Set::<CompositionId>::empty()),
    {
        let b = self.needs_recomposition.is_empty() && self.needs_layout.is_empty()
            && self.needs_paint.is_empty();
        proof {
            lemma_nodes_of_empty(self.needs_recomposition@);
            lemma_nodes_of_empty(self.needs_layout@);
            lemma_nodes_of_empty(self.needs_paint@);
        }
        b
    }
}

/// A set of node numbers is empty exactly when it names no node.
pub proof fn lemma_nodes_of_empty(keys: Set<u64>)
    ensures
        keys.is_empty() <==> nodes_of(keys) == Set::<CompositionId>::empty(),
{
    if keys.is_empty() {
        assert(nodes_of(keys) =~= Set::<CompositionId>::empty());
    } else {
        assert(!(keys =~= Set::<u64>::empty()));
        let k = choose|k: u64| keys.contains(k);
        assert(nodes_of(keys).contains(CompositionId(k)));
    }
}

/// The depth of the node `id` in `tree`.
pub fn get_node_depth<M, S>(tree: &CompositionTree<M, S>, id: CompositionId) -> (depth: usize)
    ensures
        depth == depth_of(tree.nodes(), id),
{
    let budget = tree.len();
    let mut depth: usize = 0;
    let mut current = id;
    while depth < budget
        invariant
            depth <= budget,
            budget == tree.nodes().dom().len(),
            depth_of(tree.nodes(), id) == depth + depth_within(
                tree.nodes(),
                current,
                (budget - depth) as nat,
            ),
        decreases budget - depth,
    {
        match tree.get(current) {
            Some(node) => match node.parent {
                Some(parent) => {
                    depth = depth + 1;
                    current = parent;
                },
                None => {
                    return depth;
                },
            },
            None => {
                return depth;
            },
        }
    }
    depth
}

/// The nodes of `ids`, ordered by depth: a node never comes before one that
/// is less deep.
pub fn order_by_depth<M, S>(tree: &CompositionTree<M, S>, ids: &Vec<CompositionId>) -> (ordered: Vec<
    CompositionId,
>)
    ensures
        ordered@.to_multiset() == ids@.to_multiset(),
        forall|i: int, j: int|
            0 <= i <= j < ordered@.len() ==> depth_of(tree.nodes(), #[trigger] ordered@[i]) <= depth_of(
                tree.nodes(),
                #[trigger] ordered@[j],
            ),
{
    let mut ordered: Vec<CompositionId> = Vec::new();
    let mut i: usize = 0;
    assert(ordered@ =~= ids@.take(0));
    while i < ids.len()
        invariant
            i <= ids.len(),
            ordered@.to_multiset() == ids@.take(i as int).to_multiset(),
            forall|a: int, b: int|
                0 <= a <= b < ordered@.len() ==> depth_of(tree.nodes(), #[trigger] ordered@[a])
                    <= depth_of(tree.nodes(), #[trigger] ordered@[b]),
        decreases ids.len() - i,
    {
        let id = ids[i];
        let depth = get_node_depth(tree, id);
        let mut at: usize = 0;
        while at < ordered.len() && get_node_depth(tree, ordered[at]) <= depth
            invariant
                at <= ordered.len(),
                depth == depth_of(tree.nodes(), id),
                forall|a: int| 0 <= a < at ==> depth_of(tree.nodes(), #[trigger] ordered@[a]) <= depth,
            decreases ordered.len() - at,
        {
            at = at + 1;
        }
        let ghost before = ordered@;
        ordered.insert(at, id);
        proof {
            vstd::seq_lib::lemma_multiset_commutative(before.take(at as int).push(id), before.skip(at as int));
            vstd::seq_lib::lemma_multiset_commutative(before.take(at as int), before.skip(at as int));
            before.take(at as int).to_multiset_ensures();
            ids@.take(i as int).to_multiset_ensures();
            assert(before.take(at as int) + before.skip(at as int) =~= before);
            assert(before.take(at as int).push(id) + before.skip(at as int) =~= before.insert(at as int, id));
            assert(ids@.take(i + 1) =~= ids@.take(i as int).push(id));
            assert(ordered@.to_multiset() =~= ids@.take(i + 1).to_multiset());
            assert forall|a: int, b: int| 0 <= a <= b < ordered@.len() implies depth_of(
                tree.nodes(),
                #[trigger] ordered@[a],
            ) <= depth_of(tree.nodes(), #[trigger] ordered@[b]) by {
                let da = if a < at { a } else { a - 1 };
                let db = if b < at { b } else { b - 1 };
                if a != at && b != at {
                    assert(ordered@[a] == before[da]);
                    assert(ordered@[b] == before[db]);
                } else if a == at && b != at {
                    assert(ordered@[b] == before[db]);
                    assert(db >= at);
                    if at < before.len() {
                        assert(depth_of(tree.nodes(), before[at as int]) > depth);
                        assert(depth_of(tree.nodes(), before[at as int]) <= depth_of(tree.nodes(), before[db]));
                    }
                } else if b == at && a != at {
                    assert(ordered@[a] == before[da]);
                }
            }
        }
        i = i + 1;
    }
    assert(ids@.take(i as int) =~= ids@);
    ordered
}

/// Marks every node that needs recomposition as recomposed, parents before
/// children, and notes that none needs recomposition any more. What needs
/// layout or painting stays noted.
pub fn process_recompositions<M, S>(tree: &mut CompositionTree<M, S>, dirty: &mut DirtyFlags)
    ensures
        final(tree).nodes() == cleaned(old(tree).nodes(), old(dirty).recomposition()),
        final(tree).same_but_nodes(old(tree)),
        final(dirty).recomposition() == Set::<CompositionId>::empty(),
        final(dirty).layout() == old(dirty).layout(),
        final(dirty).paint() == old(dirty).paint(),
{
    let keys = set_list(&dirty.needs_recomposition);
    let mut ids: Vec<CompositionId> = Vec::new();
    let mut k: usize = 0;
    while k < keys.len()
        invariant
            k <= keys.len(),
            ids@.len() == k,
            forall|j: int| 0 <= j < k ==> (#[trigger] ids@[j]).0 == keys@[j],
        decreases keys.len() - k,
    {
        ids.push(CompositionId(keys[k]));
        k = k + 1;
    }
    let sorted_ids = order_by_depth(tree, &ids);
    proof {
        sorted_ids@.to_multiset_ensures();
        ids@.to_multiset_ensures();
        assert forall|id: CompositionId| sorted_ids@.contains(id) <==> old(dirty).recomposition().contains(
            id,
        ) by {
            assert(sorted_ids@.contains(id) <==> sorted_ids@.to_multiset().count(id) > 0);
            assert(ids@.contains(id) <==> ids@.to_multiset().count(id) > 0);
            if ids@.contains(id) {
                let j = choose|j: int| 0 <= j < ids@.len() && ids@[j] == id;
                assert(keys@[j] == id.0);
                assert(keys@.contains(id.0));
                assert(keys@.to_set().contains(id.0));
            }
            if old(dirty).recomposition().contains(id) {
                assert(keys@.to_set().contains(id.0));
                assert(keys@.contains(id.0));
                let j = choose|j: int| 0 <= j < keys@.len() && keys@[j] == id.0;
                assert(ids@[j].0 == id.0);
                assert(ids@[j] == id);
            }
        }
        assert(sorted_ids@.take(0).to_set() =~= Set::<CompositionId>::empty());
        assert(tree.nodes() =~= cleaned(old(tree).nodes(), Set::<CompositionId>::empty()));
    }
    let mut i: usize = 0;
    while i < sorted_ids.len()
        invariant
            i <= sorted_ids.len(),
            tree.same_but_nodes(old(tree)),
            tree.nodes() == cleaned(old(tree).nodes(), sorted_ids@.take(i as int).to_set()),
        decreases sorted_ids.len() - i,
    {
        tree.mark_clean(sorted_ids[i]);
        proof {
            sorted_ids@.take(i as int).lemma_push_to_set_commute(sorted_ids@[i as int]);
            assert(sorted_ids@.take(i + 1) =~= sorted_ids@.take(i as int).push(sorted_ids@[i as int]));
            assert(tree.nodes() =~= cleaned(old(tree).nodes(), sorted_ids@.take(i + 1).to_set()));
        }
        i = i + 1;
    }
    proof {
        assert(sorted_ids@.take(i as int) =~= sorted_ids@);
        assert(sorted_ids@.to_set() =~= old(dirty).recomposition());
    }
    dirty.needs_recomposition.clear();
    assert(dirty.recomposition() =~= Set::<CompositionId>::empty());
}

} // verus!
