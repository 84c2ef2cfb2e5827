//! Reconciliation of the children of a node: new children are matched with
//! old ones by key, or by position where they have no key; what is matched is
//! kept and updated, what is not is inserted or removed.
//!
//! Keys are texts. They are kept in vectors and compared one by one: of a
//! hash map that is keyed by text nothing can be proved, since the verifier
//! has no model of how a text is hashed and compared.

use vstd::prelude::*;
use crate::composition::tree::{
    lemma_without_child, same_but_children, CompositionId, CompositionKey, CompositionNode, CompositionTree,
};

verus! {

/// Whether `after` is what is left of `before` once some of its nodes were
/// removed: the nodes that were noted as removed in between are gone; every
/// node that is left has kept everything but, possibly, children; and a
/// child that a node no longer lists is gone.
pub open spec fn pruned<M, S>(before: CompositionTree<M, S>, after: CompositionTree<M, S>) -> bool {
    let base = before.removed_nodes().len() as int;
    &&& after.root_id() == before.root_id()
    &&& after.pending() == before.pending()
    &&& after.new_nodes() == before.new_nodes()
    &&& base <= after.removed_nodes().len()
    &&& after.removed_nodes().take(base) == before.removed_nodes()
    &&& after.nodes().dom() == before.nodes().dom().difference(after.removed_nodes().skip(base).to_set())
    &&& forall|k: CompositionId| #[trigger]
        after.nodes().contains_key(k) ==> before.nodes().contains_key(k) && same_but_children(
            after.nodes()[k],
            before.nodes()[k],
        )
    &&& forall|k: CompositionId, c: CompositionId|
        after.nodes().contains_key(k) && #[trigger] after.nodes()[k].children@.contains(c)
            ==> before.nodes()[k].children@.contains(c)
    &&& forall|k: CompositionId, c: CompositionId|
        after.nodes().contains_key(k) && #[trigger] before.nodes()[k].children@.contains(c)
            && !after.nodes()[k].children@.contains(c) ==> !after.nodes().contains_key(c)
}

/// The nodes that were noted as removed between `before` and `after`, in the
/// order in which they were noted.
pub open spec fn removed_since<M, S>(before: CompositionTree<M, S>, after: CompositionTree<M, S>) -> Seq<
    CompositionId,
> {
    after.removed_nodes().skip(before.removed_nodes().len() as int)
}

/// Whether the node at position `at` of `gone` was in the tree and is either
/// `top` or a child of a node that stands later in `gone`.
pub open spec fn listed_below<M, S>(
    nodes: Map<CompositionId, CompositionNode<M, S>>,
    gone: Seq<CompositionId>,
    top: CompositionId,
    at: int,
) -> bool {
    &&& nodes.contains_key(gone[at])
    &&& (gone[at] == top || exists|j: int|
        at < j < gone.len() && nodes[#[trigger] gone[j]].children@.contains(gone[at]))
}

/// What removing the subtree of `id` makes of a tree. The nodes that went
/// are noted as removed, each once, children before their parent and `id`
/// last. Each of them was `id` or a child of a node that went; and every
/// child of a node that went is gone. So the nodes that went are exactly
/// `id` and the nodes below it.
pub open spec fn subtree_removed<M, S>(
    before: CompositionTree<M, S>,
    after: CompositionTree<M, S>,
    id: CompositionId,
) -> bool {
    let gone = removed_since(before, after);
    &&& pruned(before, after)
    &&& gone.no_duplicates()
    &&& if before.nodes().contains_key(id) {
        gone.len() > 0 && gone.last() == id
    } else {
        gone.len() == 0
    }
    &&& forall|i: int| 0 <= i < gone.len() ==> #[trigger] listed_below(before.nodes(), gone, id, i)
    &&& forall|i: int, c: CompositionId|
        0 <= i < gone.len() && #[trigger] before.nodes()[gone[i]].children@.contains(c)
            ==> !after.nodes().contains_key(c)
}

/// Pruning twice is pruning.
pub proof fn lemma_pruned_twice<M, S>(
    a: CompositionTree<M, S>,
    b: CompositionTree<M, S>,
    c: CompositionTree<M, S>,
)
    requires
        pruned(a, b),
        pruned(b, c),
    ensures
        pruned(a, c),
        removed_since(a, c) == removed_since(a, b) + removed_since(b, c),
{
    let base_a = a.removed_nodes().len() as int;
    let base_b = b.removed_nodes().len() as int;
    assert(c.removed_nodes().take(base_a) =~= a.removed_nodes()) by {
        assert(c.removed_nodes().take(base_b).take(base_a) =~= c.removed_nodes().take(base_a));
    }
    let first = b.removed_nodes().skip(base_a);
    let second = c.removed_nodes().skip(base_b);
    assert(c.removed_nodes().skip(base_a) =~= first + second) by {
        assert forall|i: int| 0 <= i < first.len() implies c.removed_nodes().skip(base_a)[i] == first[i] by {
            assert(c.removed_nodes().take(base_b)[base_a + i] == b.removed_nodes()[base_a + i]);
        }
    }
    vstd::seq_lib::seq_to_set_distributes_over_add(first, second);
    assert(c.nodes().dom() =~= a.nodes().dom().difference(c.removed_nodes().skip(base_a).to_set()));
    assert forall|k: CompositionId, x: CompositionId|
        c.nodes().contains_key(k) && #[trigger] c.nodes()[k].children@.contains(x) implies a.nodes()[k].children@.contains(
        x,
    ) by {
        assert(b.nodes().contains_key(k));
        assert(b.nodes()[k].children@.contains(x));
    }
    assert forall|k: CompositionId, x: CompositionId|
        c.nodes().contains_key(k) && #[trigger] a.nodes()[k].children@.contains(x) && !c.nodes()[k].children@.contains(
            x,
        ) implies !c.nodes().contains_key(x) by {
        assert(b.nodes().contains_key(k));
        if b.nodes()[k].children@.contains(x) {
        } else {
            assert(!b.nodes().contains_key(x));
        }
    }
}

/// Pruning nothing is pruning.
pub proof fn lemma_pruned_nothing<M, S>(a: CompositionTree<M, S>)
    ensures
        pruned(a, a),
        removed_since(a, a) == Seq::<CompositionId>::empty(),
{
    let base = a.removed_nodes().len() as int;
    assert(a.removed_nodes().take(base) =~= a.removed_nodes());
    assert(a.removed_nodes().skip(base) =~= Seq::<CompositionId>::empty());
    assert(a.removed_nodes().skip(base).to_set() =~= Set::<CompositionId>::empty());
    assert(a.nodes().dom() =~= a.nodes().dom().difference(Set::<CompositionId>::empty()));
}

/// A tree with the same nodes and the same notes is pruned by nothing.
pub proof fn lemma_pruned_same<M, S>(a: CompositionTree<M, S>, b: CompositionTree<M, S>)
    requires
        b.nodes() =~= a.nodes(),
        b.same_but_nodes(&a),
    ensures
        pruned(a, b),
        removed_since(a, b) == Seq::<CompositionId>::empty(),
{
    let base = a.removed_nodes().len() as int;
    assert(b.removed_nodes().take(base) =~= a.removed_nodes());
    assert(b.removed_nodes().skip(base) =~= Seq::<CompositionId>::empty());
    assert(b.removed_nodes().skip(base).to_set() =~= Set::<CompositionId>::empty());
    assert(b.nodes().dom() =~= a.nodes().dom().difference(Set::<CompositionId>::empty()));
}

/// Removes the node `id` and the nodes below it: first the subtrees of its
/// children, in order, then the node itself. The node is taken out of the
/// tree before its children are visited, so that a node that lists one of
/// its own ancestors as a child does not lead back to it.
pub fn remove_subtree<M, S>(tree: &mut CompositionTree<M, S>, id: CompositionId)
    ensures
        subtree_removed(*old(tree), *final(tree), id),
        !final(tree).nodes().contains_key(id),
    decreases old(tree).nodes().dom().len(),
{
    proof {
        tree.lemma_finite();
        lemma_pruned_nothing(*tree);
    }
    let node = match tree.detach(id) {
        Some(node) => node,
        None => {
            proof {
                lemma_pruned_same(*old(tree), *tree);
            }
            return ;
        },
    };
    let ghost detached = *tree;
    let ghost children = node.children@;
    proof {
        lemma_pruned_nothing(detached);
        assert(detached.nodes().dom().len() == old(tree).nodes().dom().len() - 1);
    }
    let mut k: usize = 0;
    while k < node.children.len()
        invariant
            k <= node.children.len(),
            children == node.children@,
            old(tree).nodes().contains_key(id),
            node == old(tree).nodes()[id],
            detached.nodes() == old(tree).nodes().remove(id),
            detached.nodes().dom().finite(),
            detached.nodes().dom().len() == old(tree).nodes().dom().len() - 1,
            detached.removed_nodes() == old(tree).removed_nodes(),
            detached.same_but_nodes(old(tree)),
            pruned(detached, *tree),
            removed_since(detached, *tree).no_duplicates(),
            forall|i: int|
                0 <= i < removed_since(detached, *tree).len() ==> #[trigger] listed_under(
                    detached.nodes(),
                    removed_since(detached, *tree),
                    children.take(k as int),
                    i,
                ),
            forall|i: int, c: CompositionId|
                0 <= i < removed_since(detached, *tree).len() && #[trigger] detached.nodes()[removed_since(
                    detached,
                    *tree,
                )[i]].children@.contains(c) ==> !tree.nodes().contains_key(c),
            forall|j: int| 0 <= j < k ==> !tree.nodes().contains_key(#[trigger] children[j]),
        decreases node.children.len() - k,
    {
        let ghost mid = *tree;
        let ghost gone_before = removed_since(detached, mid);
        proof {
            vstd::set_lib::lemma_len_subset(mid.nodes().dom(), detached.nodes().dom());
        }
        remove_subtree(tree, node.children[k]);
        proof {
            let child = children[k as int];
            let fresh = removed_since(mid, *tree);
            lemma_pruned_twice(detached, mid, *tree);
            let gone = removed_since(detached, *tree);
            assert(gone == gone_before + fresh);
            // what went now was still in the tree, so it had not gone before
            assert(gone.no_duplicates()) by {
                assert forall|a: int, b: int| 0 <= a < gone.len() && 0 <= b < gone.len() && a != b implies gone[a]
                    != gone[b] by {
                    if a < gone_before.len() && b >= gone_before.len() {
                        assert(listed_below(mid.nodes(), fresh, child, b - gone_before.len()));
                        assert(gone_before.to_set().contains(gone_before[a]));
                    }
                    if b < gone_before.len() && a >= gone_before.len() {
                        assert(listed_below(mid.nodes(), fresh, child, a - gone_before.len()));
                        assert(gone_before.to_set().contains(gone_before[b]));
                    }
                }
            }
            assert(children.take(k + 1) =~= children.take(k as int).push(child));
            assert forall|i: int| 0 <= i < gone.len() implies #[trigger] listed_under(
                detached.nodes(),
                gone,
                children.take(k + 1),
                i,
            ) by {
                if i < gone_before.len() {
                    assert(listed_under(detached.nodes(), gone_before, children.take(k as int), i));
                    if children.take(k as int).contains(gone_before[i]) {
                        let w = choose|w: int| 0 <= w < k && children.take(k as int)[w] == gone_before[i];
                        assert(children.take(k + 1)[w] == gone_before[i]);
                    } else {
                        let j = choose|j: int|
                            i < j < gone_before.len() && detached.nodes()[#[trigger] gone_before[j]].children@.contains(
                                gone_before[i],
                            );
                        assert(gone[j] == gone_before[j]);
                    }
                } else {
                    let b = i - gone_before.len();
                    assert(listed_below(mid.nodes(), fresh, child, b));
                    assert(mid.nodes().contains_key(fresh[b]));
                    if fresh[b] == child {
                        assert(children.take(k + 1)[k as int] == child);
                    } else {
                        let j = choose|j: int|
                            b < j < fresh.len() && mid.nodes()[#[trigger] fresh[j]].children@.contains(fresh[b]);
                        assert(listed_below(mid.nodes(), fresh, child, j));
                        assert(mid.nodes().contains_key(fresh[j]));
                        assert(detached.nodes()[fresh[j]].children@.contains(fresh[b]));
                        assert(gone[gone_before.len() + j] == fresh[j]);
                    }
                }
            }
            assert forall|i: int, c: CompositionId|
                0 <= i < gone.len() && #[trigger] detached.nodes()[gone[i]].children@.contains(c) implies !tree.nodes().contains_key(
                c,
            ) by {
                if i < gone_before.len() {
                    assert(detached.nodes()[gone_before[i]].children@.contains(c));
                    assert(!mid.nodes().contains_key(c));
                } else {
                    let b = i - gone_before.len();
                    assert(listed_below(mid.nodes(), fresh, child, b));
                    assert(mid.nodes().contains_key(fresh[b]));
                    if mid.nodes()[fresh[b]].children@.contains(c) {
                    } else {
                        assert(!mid.nodes().contains_key(c));
                    }
                }
            }
            assert forall|j: int| 0 <= j < k + 1 implies !tree.nodes().contains_key(#[trigger] children[j]) by {
                if j < k {
                    assert(!mid.nodes().contains_key(children[j]));
                }
            }
        }
        k = k + 1;
    }
    let ghost last = *tree;
    tree.note_removed(id, node.parent);
    proof {
        assert(children.take(k as int) =~= children);
        let inner = removed_since(detached, last);
        let gone = removed_since(*old(tree), *tree);
        let base = old(tree).removed_nodes().len() as int;
        assert(last.removed_nodes().take(base) =~= old(tree).removed_nodes());
        assert(tree.removed_nodes().take(base) =~= old(tree).removed_nodes());
        assert(gone =~= inner.push(id));
        inner.lemma_push_to_set_commute(id);
        assert(tree.nodes().dom() =~= last.nodes().dom());
        assert(tree.nodes().dom() =~= old(tree).nodes().dom().difference(gone.to_set()));
        // every node that is left is as it was, but for children
        assert forall|n: CompositionId| #[trigger] tree.nodes().contains_key(n) implies old(
            tree,
        ).nodes().contains_key(n) && same_but_children(tree.nodes()[n], old(tree).nodes()[n]) by {
            assert(last.nodes().contains_key(n));
            assert(detached.nodes().contains_key(n));
            match node.parent {
                Some(p) => {
                    if last.nodes().contains_key(p) && n != p {
                        assert(tree.nodes().remove(p)[n] == last.nodes().remove(p)[n]);
                    }
                },
                None => {},
            }
        }
        assert forall|n: CompositionId, c: CompositionId|
            tree.nodes().contains_key(n) && #[trigger] tree.nodes()[n].children@.contains(c) implies old(
            tree,
        ).nodes()[n].children@.contains(c) by {
            assert(last.nodes().contains_key(n));
            match node.parent {
                Some(p) => {
                    if last.nodes().contains_key(p) {
                        if n == p {
                            lemma_without_child(last.nodes()[p].children@, id, c);
                        } else {
                            assert(tree.nodes().remove(p)[n] == last.nodes().remove(p)[n]);
                        }
                    }
                },
                None => {},
            }
            assert(last.nodes()[n].children@.contains(c));
            assert(detached.nodes()[n].children@.contains(c));
        }
        assert forall|n: CompositionId, c: CompositionId|
            tree.nodes().contains_key(n) && #[trigger] old(tree).nodes()[n].children@.contains(c)
                && !tree.nodes()[n].children@.contains(c) implies !tree.nodes().contains_key(c) by {
            assert(last.nodes().contains_key(n));
            assert(detached.nodes()[n].children@.contains(c));
            if last.nodes()[n].children@.contains(c) {
                match node.parent {
                    Some(p) => {
                        if last.nodes().contains_key(p) {
                            if n == p {
                                lemma_without_child(last.nodes()[p].children@, id, c);
                                assert(c == id);
                            } else {
                                assert(tree.nodes().remove(p)[n] == last.nodes().remove(p)[n]);
                            }
                        }
                    },
                    None => {},
                }
            } else {
                assert(!last.nodes().contains_key(c));
            }
        }
        assert(pruned(*old(tree), *tree));
        assert(gone.no_duplicates()) by {
            assert forall|a: int, b: int| 0 <= a < gone.len() && 0 <= b < gone.len() && a != b implies gone[a]
                != gone[b] by {
                if a < inner.len() {
                    assert(listed_under(detached.nodes(), inner, children, a));
                }
                if b < inner.len() {
                    assert(listed_under(detached.nodes(), inner, children, b));
                }
            }
        }
        assert forall|i: int| 0 <= i < gone.len() implies #[trigger] listed_below(old(tree).nodes(), gone, id, i) by {
            if i < inner.len() {
                assert(listed_under(detached.nodes(), inner, children, i));
                if children.contains(inner[i]) {
                    assert(gone[inner.len() as int] == id);
                    assert(old(tree).nodes()[gone[inner.len() as int]].children@.contains(gone[i]));
                } else {
                    let j = choose|j: int|
                        i < j < inner.len() && detached.nodes()[#[trigger] inner[j]].children@.contains(inner[i]);
                    assert(listed_under(detached.nodes(), inner, children, j));
                    assert(gone[j] == inner[j]);
                    assert(old(tree).nodes()[gone[j]].children@.contains(gone[i]));
                }
            }
        }
        assert forall|i: int, c: CompositionId|
            0 <= i < gone.len() && #[trigger] old(tree).nodes()[gone[i]].children@.contains(c) implies !tree.nodes().contains_key(
            c,
        ) by {
            if i < inner.len() {
                assert(listed_under(detached.nodes(), inner, children, i));
                assert(detached.nodes()[inner[i]].children@.contains(c));
                assert(!last.nodes().contains_key(c));
            } else {
                let w = choose|w: int| 0 <= w < children.len() && children[w] == c;
                assert(!last.nodes().contains_key(children[w]));
            }
        }
    }
}

/// Whether the node at position `at` of `gone` was in the tree and is either
/// one of `tops` or a child of a node that stands later in `gone`.
pub open spec fn listed_under<M, S>(
    nodes: Map<CompositionId, CompositionNode<M, S>>,
    gone: Seq<CompositionId>,
    tops: Seq<CompositionId>,
    at: int,
) -> bool {
    &&& nodes.contains_key(gone[at])
    &&& (tops.contains(gone[at]) || exists|j: int|
        at < j < gone.len() && nodes[#[trigger] gone[j]].children@.contains(gone[at]))
}

/// The text of a key, if there is a key.
pub open spec fn key_text(key: Option<CompositionKey>) -> Option<Seq<char>> {
    match key {
        Some(k) => Some(k.0@),
        None => None,
    }
}

/// The old children that reconciliation can match: those that the tree has.
pub open spec fn candidates<M, S>(
    nodes: Map<CompositionId, CompositionNode<M, S>>,
    old_children: Seq<CompositionId>,
) -> Seq<CompositionId> {
    old_children.filter(|c: CompositionId| nodes.contains_key(c))
}

/// The last of `ids` whose key reads `text`.
pub open spec fn last_with_key(keys: Seq<Option<Seq<char>>>, ids: Seq<CompositionId>, text: Seq<char>) -> Option<
    CompositionId,
>
    decreases ids.len(),
{
    if ids.len() == 0 || keys.len() != ids.len() {
        None
    } else if keys.last() == Some(text) {
        Some(ids.last())
    } else {
        last_with_key(keys.drop_last(), ids.drop_last(), text)
    }
}

/// The items of `ids` that have no key, in order.
pub open spec fn unkeyed(keys: Seq<Option<Seq<char>>>, ids: Seq<CompositionId>) -> Seq<CompositionId>
    decreases ids.len(),
{
    if ids.len() == 0 || keys.len() != ids.len() {
        Seq::empty()
    } else if keys.last() is None {
        unkeyed(keys.drop_last(), ids.drop_last()).push(ids.last())
    } else {
        unkeyed(keys.drop_last(), ids.drop_last())
    }
}

/// How many of the first `upto` keys are absent.
pub open spec fn absent_before(keys: Seq<Option<Seq<char>>>, upto: int) -> nat
    decreases upto,
{
    if upto <= 0 || upto > keys.len() {
        0
    } else if keys[upto - 1] is None {
        absent_before(keys, upto - 1) + 1
    } else {
        absent_before(keys, upto - 1)
    }
}

/// Whether the key at position `at` occurs at an earlier position too.
pub open spec fn used_before(keys: Seq<Option<Seq<char>>>, at: int) -> bool {
    exists|j: int| 0 <= j < at && #[trigger] keys[j] == keys[at]
}

/// The old child that the new child at position `at` is matched with. A new
/// child with a key takes the last old child with that key, unless an
/// earlier new child has the key already. A new child without a key takes
/// the old child without a key that stands at the same position among those
/// without a key.
pub open spec fn matched(
    old_keys: Seq<Option<Seq<char>>>,
    old_ids: Seq<CompositionId>,
    new_keys: Seq<Option<Seq<char>>>,
    at: int,
) -> Option<CompositionId> {
    match new_keys[at] {
        Some(text) => if used_before(new_keys, at) {
            None
        } else {
            last_with_key(old_keys, old_ids, text)
        },
        None => {
            let rank = absent_before(new_keys, at);
            let free = unkeyed(old_keys, old_ids);
            if rank < free.len() {
                Some(free[rank as int])
            } else {
                None
            }
        },
    }
}

/// The keys of the nodes `ids` in `nodes`.
pub open spec fn keys_of<M, S>(nodes: Map<CompositionId, CompositionNode<M, S>>, ids: Seq<CompositionId>) -> Seq<
    Option<Seq<char>>,
> {
    ids.map_values(|c: CompositionId| key_text(nodes[c].key))
}

/// The keys of `children`.
pub open spec fn new_keys_of<M, S>(children: Seq<CompositionNode<M, S>>) -> Seq<Option<Seq<char>>> {
    children.map_values(|n: CompositionNode<M, S>| key_text(n.key))
}

/// The children of a node after reconciliation: at each position the old
/// child that the new child was matched with, and the new child's own
/// identifier where it was matched with none.
pub open spec fn reconciled<M, S>(
    nodes: Map<CompositionId, CompositionNode<M, S>>,
    old_children: Seq<CompositionId>,
    new_children: Seq<CompositionNode<M, S>>,
) -> Seq<CompositionId> {
    let old_ids = candidates(nodes, old_children);
    let old_keys = keys_of(nodes, old_ids);
    let new_keys = new_keys_of(new_children);
    Seq::new(
        new_children.len(),
        |i: int|
            match matched(old_keys, old_ids, new_keys, i) {
                Some(existing) => existing,
                None => new_children[i].id,
            },
    )
}

/// Whether no later position of `ids` holds the node that stands at `at`.
pub open spec fn last_word(ids: Seq<CompositionId>, at: int) -> bool {
    forall|j: int| at < j < ids.len() ==> #[trigger] ids[j] != ids[at]
}

/// Whether the old child at position `at` has a key that no new child has
/// and is the last old child with that key: nothing is matched with it.
pub open spec fn left_over_keyed(
    old_keys: Seq<Option<Seq<char>>>,
    new_keys: Seq<Option<Seq<char>>>,
    at: int,
) -> bool {
    &&& old_keys[at] is Some
    &&& !(exists|i: int| 0 <= i < new_keys.len() && #[trigger] new_keys[i] == old_keys[at])
    &&& !(exists|j: int| at < j < old_keys.len() && #[trigger] old_keys[j] == old_keys[at])
}

/// What reconciliation leaves of the tree. The nodes of the tree are those
/// it had and those that were inserted, without those that were noted as
/// removed. The old children that nothing was matched with are gone: the
/// last old child of each key that no new child has, and the old children
/// without a key beyond the number of new children without a key. A node
/// that is the reconciled child at a position, and at no later one, and is
/// still in the tree, has the modifiers of the new child at that position,
/// and is dirty if it was matched.
pub open spec fn reconciled_tree<M, S>(
    before: CompositionTree<M, S>,
    after: CompositionTree<M, S>,
    old_children: Seq<CompositionId>,
    new_children: Seq<CompositionNode<M, S>>,
) -> bool {
    let old_ids = candidates(before.nodes(), old_children);
    let old_keys = keys_of(before.nodes(), old_ids);
    let new_keys = new_keys_of(new_children);
    let free = unkeyed(old_keys, old_ids);
    let children = reconciled(before.nodes(), old_children, new_children);
    &&& after.nodes().dom() == before.nodes().dom().union(
        inserted(before.nodes(), old_children, new_children).to_set(),
    ).difference(removed_since(before, after).to_set())
    &&& forall|j: int|
        0 <= j < old_ids.len() && #[trigger] left_over_keyed(old_keys, new_keys, j)
            ==> !after.nodes().contains_key(old_ids[j])
    &&& forall|u: int|
        absent_before(new_keys, new_keys.len() as int) <= u < free.len() ==> !after.nodes().contains_key(
            #[trigger] free[u],
        )
    &&& forall|i: int|
        0 <= i < children.len() && #[trigger] last_word(children, i) && after.nodes().contains_key(
            children[i],
        ) ==> carries(after.nodes()[children[i]], new_children[i], matched(old_keys, old_ids, new_keys, i))
}

/// Whether `node` has the modifiers of `child`, and is dirty if it is an old
/// child that `child` was matched with.
pub open spec fn carries<M, S>(
    node: CompositionNode<M, S>,
    child: CompositionNode<M, S>,
    found: Option<CompositionId>,
) -> bool {
    &&& node.modifiers == child.modifiers
    &&& found is Some ==> node.dirty
}

/// The last child with a key is one of the children.
pub proof fn lemma_last_with_key_is_listed(keys: Seq<Option<Seq<char>>>, ids: Seq<CompositionId>, text: Seq<char>)
    ensures
        last_with_key(keys, ids, text) is Some ==> ids.contains(last_with_key(keys, ids, text)->0),
    decreases ids.len(),
{
    if ids.len() == 0 || keys.len() != ids.len() {
    } else if keys.last() == Some(text) {
        assert(ids[ids.len() - 1] == ids.last());
    } else {
        lemma_last_with_key_is_listed(keys.drop_last(), ids.drop_last(), text);
        if last_with_key(keys, ids, text) is Some {
            let e = last_with_key(keys, ids, text)->0;
            let w = choose|w: int| 0 <= w < ids.drop_last().len() && ids.drop_last()[w] == e;
            assert(ids[w] == e);
        }
    }
}

/// A child without a key is one of the children.
pub proof fn lemma_unkeyed_is_listed(keys: Seq<Option<Seq<char>>>, ids: Seq<CompositionId>, at: int)
    requires
        0 <= at < unkeyed(keys, ids).len(),
    ensures
        ids.contains(unkeyed(keys, ids)[at]),
    decreases ids.len(),
{
    if ids.len() == 0 || keys.len() != ids.len() {
    } else {
        let shorter = unkeyed(keys.drop_last(), ids.drop_last());
        if keys.last() is None && at == shorter.len() {
            assert(ids[ids.len() - 1] == ids.last());
        } else {
            lemma_unkeyed_is_listed(keys.drop_last(), ids.drop_last(), at);
            let e = shorter[at];
            let w = choose|w: int| 0 <= w < ids.drop_last().len() && ids.drop_last()[w] == e;
            assert(ids[w] == e);
        }
    }
}

/// The new children among the first `upto` that were matched with no old
/// child, by identifier and in order.
pub open spec fn inserted_upto<M, S>(
    old_keys: Seq<Option<Seq<char>>>,
    old_ids: Seq<CompositionId>,
    new_children: Seq<CompositionNode<M, S>>,
    upto: int,
) -> Seq<CompositionId>
    decreases upto,
{
    if upto <= 0 {
        Seq::empty()
    } else {
        let before = inserted_upto(old_keys, old_ids, new_children, upto - 1);
        match matched(old_keys, old_ids, new_keys_of(new_children), upto - 1) {
            Some(_) => before,
            None => before.push(new_children[upto - 1].id),
        }
    }
}

/// The new children that reconciliation inserts: those that were matched
/// with no old child, by identifier and in order.
pub open spec fn inserted<M, S>(
    nodes: Map<CompositionId, CompositionNode<M, S>>,
    old_children: Seq<CompositionId>,
    new_children: Seq<CompositionNode<M, S>>,
) -> Seq<CompositionId> {
    let old_ids = candidates(nodes, old_children);
    inserted_upto(keys_of(nodes, old_ids), old_ids, new_children, new_children.len() as int)
}

/// A copy of the text of a key.
fn text_of(key: &Option<CompositionKey>) -> (text: Option<String>)
    ensures
        match text {
            Some(t) => key_text(*key) == Some(t@),
            None => key_text(*key) is None,
        },
{
    match key {
        Some(k) => Some(k.0.clone()),
        None => None,
    }
}

/// The views of the texts in `texts`.
pub open spec fn text_views(texts: Seq<Option<String>>) -> Seq<Option<Seq<char>>> {
    texts.map_values(
        |t: Option<String>|
            match t {
                Some(s) => Some(s@),
                None => None,
            },
    )
}

/// Whether two optional texts read the same.
fn same_text(a: &Option<String>, b: &Option<String>) -> (same: bool)
    ensures
        same == (text_views(seq![*a])[0] == text_views(seq![*b])[0]),
{
    match a {
        Some(x) => match b {
            Some(y) => *x == *y,
            None => false,
        },
        None => match b {
            Some(_) => false,
            None => true,
        },
    }
}

/// Finds the last of `ids` whose key reads like `key`, which is present.
fn find_last_with_key(keys: &Vec<Option<String>>, ids: &Vec<CompositionId>, key: &Option<String>) -> (found:
    Option<CompositionId>)
    requires
        keys@.len() == ids@.len(),
        *key is Some,
    ensures
        found == last_with_key(text_views(keys@), ids@, key->0@),
{
    let mut n = ids.len();
    proof {
        assert(text_views(keys@).take(n as int) =~= text_views(keys@));
        assert(ids@.take(n as int) =~= ids@);
    }
    while n > 0
        invariant
            n <= ids.len(),
            keys@.len() == ids@.len(),
            *key is Some,
            last_with_key(text_views(keys@), ids@, key->0@) == last_with_key(
                text_views(keys@).take(n as int),
                ids@.take(n as int),
                key->0@,
            ),
        decreases n,
    {
        let ghost ks = text_views(keys@).take(n as int);
        let ghost is = ids@.take(n as int);
        proof {
            assert(ks.drop_last() =~= text_views(keys@).take(n - 1));
            assert(is.drop_last() =~= ids@.take(n - 1));
            assert(ks.last() == text_views(keys@)[n - 1]);
            assert(text_views(seq![keys@[n - 1]])[0] == text_views(keys@)[n - 1]);
            assert(text_views(seq![*key])[0] == Some(key->0@));
        }
        if same_text(&keys[n - 1], key) {
            return Some(ids[n - 1]);
        }
        n = n - 1;
    }
    proof {
        assert(text_views(keys@).take(0).len() == 0);
        assert(text_views(keys@).take(keys@.len() as int) =~= text_views(keys@));
        assert(ids@.take(ids@.len() as int) =~= ids@);
    }
    None
}

/// Whether the key at position `at`, which is present, occurs earlier.
fn is_used_before(keys: &Vec<Option<String>>, at: usize) -> (used: bool)
    requires
        at < keys@.len(),
    ensures
        used == used_before(text_views(keys@), at as int),
{
    let mut j: usize = 0;
    while j < at
        invariant
            j <= at,
            at < keys@.len(),
            forall|k: int| 0 <= k < j ==> #[trigger] text_views(keys@)[k] != text_views(keys@)[at as int],
        decreases at - j,
    {
        proof {
            assert(text_views(seq![keys@[j as int]])[0] == text_views(keys@)[j as int]);
            assert(text_views(seq![keys@[at as int]])[0] == text_views(keys@)[at as int]);
        }
        if same_text(&keys[j], &keys[at]) {
            return true;
        }
        j = j + 1;
    }
    false
}

/// Reconciles the children of `parent_id`. Each new child, in order, is
/// matched with an old child that the tree has: by key, or by position among
/// the children without a key. A matched old child gets the new child's
/// modifiers and is marked dirty; an unmatched new child is inserted and
/// made a child of `parent_id`. Then the old children that nothing was
/// matched with are removed with their subtrees: the last old child of each
/// key that no new child has, and the old children without a key that are
/// left over. Returns the children after reconciliation.
pub fn reconcile_children<M, S>(
    tree: &mut CompositionTree<M, S>,
    parent_id: CompositionId,
    old_children: &Vec<CompositionId>,
    new_children: Vec<CompositionNode<M, S>>,
) -> (result: Vec<CompositionId>)
    ensures
        result@ == reconciled(old(tree).nodes(), old_children@, new_children@),
        final(tree).new_nodes() == old(tree).new_nodes() + inserted(
            old(tree).nodes(),
            old_children@,
            new_children@,
        ),
        old(tree).removed_nodes().len() <= final(tree).removed_nodes().len(),
        final(tree).removed_nodes().take(old(tree).removed_nodes().len() as int) == old(tree).removed_nodes(),
        final(tree).root_id() == old(tree).root_id(),
        final(tree).pending() == old(tree).pending(),
        reconciled_tree(*old(tree), *final(tree), old_children@, new_children@),
{
    // the old children that the tree has, and their keys
    let mut old_ids: Vec<CompositionId> = Vec::new();
    let mut old_keys: Vec<Option<String>> = Vec::new();
    let mut i: usize = 0;
    proof {
        reveal(Seq::filter);
        assert(old_children@.take(0).len() == 0);
        assert(text_views(old_keys@) =~= keys_of(tree.nodes(), old_ids@));
    }
    while i < old_children.len()
        invariant
            i <= old_children.len(),
            *tree == *old(tree),
            old_ids@ == candidates(tree.nodes(), old_children@.take(i as int)),
            old_keys@.len() == old_ids@.len(),
            text_views(old_keys@) == keys_of(tree.nodes(), old_ids@),
            forall|j: int| 0 <= j < old_ids@.len() ==> tree.nodes().contains_key(#[trigger] old_ids@[j]),
        decreases old_children.len() - i,
    {
        proof {
            reveal(Seq::filter);
            let next = old_children@.take(i + 1);
            assert(next.drop_last() =~= old_children@.take(i as int));
            assert(next.last() == old_children@[i as int]);
        }
        let ghost prev_ids = old_ids@;
        let ghost prev_keys = old_keys@;
        match tree.get(old_children[i]) {
            Some(node) => {
                let text = text_of(&node.key);
                old_ids.push(old_children[i]);
                old_keys.push(text);
                proof {
                    assert forall|j: int| 0 <= j < old_ids@.len() implies text_views(old_keys@)[j] == keys_of(
                        tree.nodes(),
                        old_ids@,
                    )[j] by {
                        if j < prev_ids.len() {
                            assert(text_views(prev_keys)[j] == keys_of(tree.nodes(), prev_ids)[j]);
                        }
                    }
                    assert(text_views(old_keys@) =~= keys_of(tree.nodes(), old_ids@));
                }
            },
            None => {},
        }
        i = i + 1;
    }
    assert(old_children@.take(i as int) =~= old_children@);

    // the old children without a key
    let mut free: Vec<CompositionId> = Vec::new();
    let mut f: usize = 0;
    while f < old_ids.len()
        invariant
            f <= old_ids.len(),
            old_keys@.len() == old_ids@.len(),
            free@ == unkeyed(text_views(old_keys@).take(f as int), old_ids@.take(f as int)),
        decreases old_ids.len() - f,
    {
        proof {
            assert(text_views(old_keys@).take(f + 1).drop_last() =~= text_views(old_keys@).take(f as int));
            assert(old_ids@.take(f + 1).drop_last() =~= old_ids@.take(f as int));
        }
        if old_keys[f].is_none() {
            free.push(old_ids[f]);
        }
        f = f + 1;
    }
    proof {
        assert(text_views(old_keys@).take(f as int) =~= text_views(old_keys@));
        assert(old_ids@.take(f as int) =~= old_ids@);
    }

    // the keys of the new children
    let mut new_keys: Vec<Option<String>> = Vec::new();
    let mut k: usize = 0;
    while k < new_children.len()
        invariant
            k <= new_children.len(),
            new_keys@.len() == k,
            text_views(new_keys@) == new_keys_of(new_children@.take(k as int)),
        decreases new_children.len() - k,
    {
        let ghost prev_keys = new_keys@;
        let text = text_of(&new_children[k].key);
        new_keys.push(text);
        proof {
            assert(new_children@.take(k + 1) =~= new_children@.take(k as int).push(new_children@[k as int]));
            assert forall|j: int| 0 <= j < new_keys@.len() implies text_views(new_keys@)[j] == new_keys_of(
                new_children@.take(k + 1),
            )[j] by {
                if j < k {
                    assert(text_views(prev_keys)[j] == new_keys_of(new_children@.take(k as int))[j]);
                }
            }
            assert(text_views(new_keys@) =~= new_keys_of(new_children@.take(k + 1)));
        }
        k = k + 1;
    }
    assert(new_children@.take(k as int) =~= new_children@);

    // match the new children in order
    let ghost expect = reconciled(old(tree).nodes(), old_children@, new_children@);
    let ghost views = text_views(new_keys@);
    let mut rest = new_children;
    let mut result: Vec<CompositionId> = Vec::new();
    let mut rank: usize = 0;
    let mut at: usize = 0;
    let total = new_keys.len();
    while at < total
        invariant
            at <= total,
            total == new_keys@.len(),
            total == new_children@.len(),
            rest@ == new_children@.skip(at as int),
            views == text_views(new_keys@),
            views == new_keys_of(new_children@),
            old_keys@.len() == old_ids@.len(),
            free@ == unkeyed(text_views(old_keys@), old_ids@),
            old_ids@ == candidates(old(tree).nodes(), old_children@),
            text_views(old_keys@) == keys_of(old(tree).nodes(), old_ids@),
            expect == reconciled(old(tree).nodes(), old_children@, new_children@),
            rank <= free@.len(),
            rank <= at,
            rank == (if absent_before(views, at as int) < free@.len() {
                absent_before(views, at as int)
            } else {
                free@.len()
            }),
            result@ == expect.take(at as int),
            tree.root_id() == old(tree).root_id(),
            tree.pending() == old(tree).pending(),
            tree.removed_nodes() == old(tree).removed_nodes(),
            tree.new_nodes() == old(tree).new_nodes() + inserted_upto(
                text_views(old_keys@),
                old_ids@,
                new_children@,
                at as int,
            ),
            forall|j: int| 0 <= j < old_ids@.len() ==> old(tree).nodes().contains_key(#[trigger] old_ids@[j]),
            tree.nodes().dom() == old(tree).nodes().dom().union(
                inserted_upto(text_views(old_keys@), old_ids@, new_children@, at as int).to_set(),
            ),
            forall|i: int|
                0 <= i < at && #[trigger] last_word(result@, i) ==> tree.nodes().contains_key(result@[i])
                    && carries(
                    tree.nodes()[result@[i]],
                    new_children@[i],
                    matched(text_views(old_keys@), old_ids@, views, i),
                ),
        decreases total - at,
    {
        let new_node = rest.remove(0);
        proof {
            assert(new_node == new_children@[at as int]);
            assert(rest@ =~= new_children@.skip(at + 1));
            assert(views[at as int] == key_text(new_node.key));
        }
        let found = if new_keys[at].is_some() {
            if is_used_before(&new_keys, at) {
                None
            } else {
                find_last_with_key(&old_keys, &old_ids, &new_keys[at])
            }
        } else if rank < free.len() {
            let id = free[rank];
            rank = rank + 1;
            Some(id)
        } else {
            None
        };
        let ghost before = *tree;
        let ghost children_before = result@;
        proof {
            assert(found == matched(text_views(old_keys@), old_ids@, views, at as int));
            match found {
                Some(existing) => {
                    if views[at as int] is Some {
                        lemma_last_with_key_is_listed(text_views(old_keys@), old_ids@, views[at as int]->0);
                    } else {
                        lemma_unkeyed_is_listed(
                            text_views(old_keys@),
                            old_ids@,
                            absent_before(views, at as int) as int,
                        );
                    }
                    let w = choose|w: int| 0 <= w < old_ids@.len() && old_ids@[w] == existing;
                    assert(old(tree).nodes().contains_key(old_ids@[w]));
                    assert(before.nodes().contains_key(existing));
                },
                None => {},
            }
        }
        match found {
            Some(existing) => {
                tree.replace_modifiers(existing, new_node.modifiers);
                result.push(existing);
                proof {
                    assert(tree.nodes().dom() =~= before.nodes().dom());
                }
            },
            None => {
                let id = tree.insert(new_node);
                let ghost between = *tree;
                tree.add_child(parent_id, id);
                result.push(id);
                proof {
                    inserted_upto(text_views(old_keys@), old_ids@, new_children@, at as int).lemma_push_to_set_commute(
                        id,
                    );
                    assert(tree.nodes().dom() =~= before.nodes().dom().insert(id));
                    assert forall|k: CompositionId| #[trigger]
                        tree.nodes().contains_key(k) implies tree.nodes()[k].modifiers
                        == between.nodes()[k].modifiers && tree.nodes()[k].dirty == between.nodes()[k].dirty by {
                        assert(between.nodes().contains_key(k));
                    }
                }
            },
        }
        proof {
            assert(expect.take(at + 1) =~= expect.take(at as int).push(expect[at as int]));
            let so_far = inserted_upto(text_views(old_keys@), old_ids@, new_children@, at as int);
            let next = inserted_upto(text_views(old_keys@), old_ids@, new_children@, at + 1);
            assert(tree.new_nodes() =~= old(tree).new_nodes() + next);
            assert(tree.nodes().dom() =~= old(tree).nodes().dom().union(next.to_set()));
            let x = result@[at as int];
            assert forall|i: int| 0 <= i < at + 1 && #[trigger] last_word(result@, i) implies tree.nodes().contains_key(
                result@[i],
            ) && carries(
                tree.nodes()[result@[i]],
                new_children@[i],
                matched(text_views(old_keys@), old_ids@, views, i),
            ) by {
                if i < at {
                    assert(result@[at as int] != result@[i]);
                    assert(children_before[i] == result@[i]);
                    assert(last_word(children_before, i)) by {
                        assert forall|j: int| i < j < children_before.len() implies #[trigger] children_before[j]
                            != children_before[i] by {
                            assert(result@[j] == children_before[j]);
                        }
                    }
                    assert(before.nodes().contains_key(result@[i]));
                    assert(tree.nodes().contains_key(result@[i]));
                    assert(tree.nodes()[result@[i]].modifiers == before.nodes()[result@[i]].modifiers);
                    assert(tree.nodes()[result@[i]].dirty == before.nodes()[result@[i]].dirty);
                }
            }
        }
        at = at + 1;
    }
    assert(expect.take(at as int) =~= expect);
    let ghost matched_tree = *tree;
    proof {
        lemma_pruned_nothing(matched_tree);
    }

    // remove the old children that nothing was matched with
    let mut r: usize = 0;
    while r < old_ids.len()
        invariant
            r <= old_ids.len(),
            old_keys@.len() == old_ids@.len(),
            views == text_views(new_keys@),
            pruned(matched_tree, *tree),
            forall|j: int|
                0 <= j < r && #[trigger] left_over_keyed(text_views(old_keys@), views, j)
                    ==> !tree.nodes().contains_key(old_ids@[j]),
        decreases old_ids.len() - r,
    {
        let ghost mid = *tree;
        proof {
            assert(text_views(seq![old_keys@[r as int]])[0] == text_views(old_keys@)[r as int]);
        }
        if old_keys[r].is_some() && !key_occurs(&new_keys, &old_keys[r]) && !key_occurs_after(
            &old_keys,
            r,
        ) {
            remove_subtree(tree, old_ids[r]);
            proof {
                lemma_pruned_twice(matched_tree, mid, *tree);
            }
        } else {
            assert(!left_over_keyed(text_views(old_keys@), views, r as int));
        }
        r = r + 1;
    }
    let mut u: usize = rank;
    while u < free.len()
        invariant
            rank <= u,
            pruned(matched_tree, *tree),
            forall|j: int|
                0 <= j < old_ids@.len() && #[trigger] left_over_keyed(text_views(old_keys@), views, j)
                    ==> !tree.nodes().contains_key(old_ids@[j]),
            forall|v: int| rank <= v < u && v < free@.len() ==> !tree.nodes().contains_key(#[trigger] free@[v]),
        decreases free.len() - u,
    {
        let ghost mid = *tree;
        remove_subtree(tree, free[u]);
        proof {
            lemma_pruned_twice(matched_tree, mid, *tree);
        }
        u = u + 1;
    }
    proof {
        let gone = removed_since(matched_tree, *tree);
        assert(removed_since(*old(tree), *tree) =~= gone);
        assert(tree.nodes().dom() =~= old(tree).nodes().dom().union(
            inserted(old(tree).nodes(), old_children@, new_children@).to_set(),
        ).difference(removed_since(*old(tree), *tree).to_set()));
        assert forall|i: int|
            0 <= i < result@.len() && #[trigger] last_word(result@, i) && tree.nodes().contains_key(
                result@[i],
            ) implies carries(
            tree.nodes()[result@[i]],
            new_children@[i],
            matched(text_views(old_keys@), old_ids@, views, i),
        ) by {
            assert(matched_tree.nodes().contains_key(result@[i]));
            assert(same_but_children(tree.nodes()[result@[i]], matched_tree.nodes()[result@[i]]));
        }
    }
    result
}

/// Whether some item of `keys` reads like `key`.
fn key_occurs(keys: &Vec<Option<String>>, key: &Option<String>) -> (occurs: bool)
    ensures
        occurs == exists|j: int|
            0 <= j < keys@.len() && #[trigger] text_views(keys@)[j] == text_views(seq![*key])[0],
{
    let mut j: usize = 0;
    while j < keys.len()
        invariant
            j <= keys.len(),
            forall|k: int| 0 <= k < j ==> #[trigger] text_views(keys@)[k] != text_views(seq![*key])[0],
        decreases keys.len() - j,
    {
        proof {
            assert(text_views(seq![keys@[j as int]])[0] == text_views(keys@)[j as int]);
        }
        if same_text(&keys[j], key) {
            return true;
        }
        j = j + 1;
    }
    false
}

/// Whether the key at position `at` occurs at a later position too.
fn key_occurs_after(keys: &Vec<Option<String>>, at: usize) -> (occurs: bool)
    requires
        at < keys@.len(),
    ensures
        occurs == exists|j: int|
            at < j < keys@.len() && #[trigger] text_views(keys@)[j] == text_views(keys@)[at as int],
{
    assert(at < keys.len());
    let mut j: usize = at + 1;
    while j < keys.len()
        invariant
            at < j <= keys.len(),
            forall|k: int| at < k < j ==> #[trigger] text_views(keys@)[k] != text_views(keys@)[at as int],
        decreases keys.len() - j,
    {
        proof {
            assert(text_views(seq![keys@[j as int]])[0] == text_views(keys@)[j as int]);
            assert(text_views(seq![keys@[at as int]])[0] == text_views(keys@)[at as int]);
        }
        if same_text(&keys[j], &keys[at]) {
            return true;
        }
        j = j + 1;
    }
    false
}

} // verus!
