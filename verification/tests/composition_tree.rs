use becompose::composition::context::CompositionContext;
use becompose::composition::recomposition::{get_node_depth, order_by_depth, process_recompositions, DirtyFlags};
use becompose::composition::reconciler::{reconcile_children, remove_subtree};
use becompose::composition::tree::{
    remove_child, ComposableType, CompositionId, CompositionIds, CompositionKey, CompositionNode,
    CompositionTree, LayoutType, LeafType,
};
use becompose::runtime::ids::EntityId;

type Node = CompositionNode<u32, ()>;
type Tree = CompositionTree<u32, ()>;

fn leaf(ids: &mut CompositionIds, modifiers: u32) -> Node {
    CompositionNode::new(ids, ComposableType::Leaf(LeafType::Text), modifiers)
}

fn keyed(ids: &mut CompositionIds, key: &str, modifiers: u32) -> Node {
    leaf(ids, modifiers).with_key(CompositionKey::from(key.to_string()))
}

fn chain() -> (Tree, CompositionIds, Vec<CompositionId>) {
    let mut ids = CompositionIds::new();
    let mut tree = Tree::new();
    let root = tree.insert(CompositionNode::new(&mut ids, ComposableType::Layout(LayoutType::Column), 0));
    let mid = tree.insert(leaf(&mut ids, 0));
    let low = tree.insert(leaf(&mut ids, 0));
    let side = tree.insert(leaf(&mut ids, 0));
    tree.add_child(root, mid);
    tree.add_child(mid, low);
    tree.add_child(root, side);
    tree.set_root(root);
    (tree, ids, vec![root, mid, low, side])
}

#[test]
fn node_ids_start_at_one() {
    let mut ids = CompositionIds::new();
    assert!(ids.has_next());
    assert_eq!(CompositionId::new(&mut ids), CompositionId(1));
    let node: Node = leaf(&mut ids, 3);
    assert_eq!(node.id, CompositionId(2));
    assert!(node.is_dirty());
    assert!(node.key.is_none() && node.parent.is_none() && node.entity.is_none());
    assert!(node.children.is_empty());
    let node = node.with_modifiers(9);
    assert_eq!(node.modifiers, 9);
    let mut node = node;
    node.mark_clean();
    assert!(!node.is_dirty());
    node.mark_dirty();
    assert!(node.is_dirty());
    let a = CompositionKey::from("k".to_string());
    assert!(a.same(&CompositionKey::from("k".to_string())));
    assert!(!a.same(&CompositionKey::from("K".to_string())));
}

#[test]
fn tree_links_parents_and_children() {
    let (tree, _, n) = chain();
    assert_eq!(tree.root(), Some(n[0]));
    assert_eq!(tree.len(), 4);
    assert_eq!(tree.get(n[0]).expect("root").children, vec![n[1], n[3]]);
    assert_eq!(tree.get(n[1]).expect("mid").parent, Some(n[0]));
    assert_eq!(tree.get(n[2]).expect("low").parent, Some(n[1]));
    assert!(tree.get(CompositionId(99)).is_none());
    assert!(tree.contains(n[3]) && !tree.contains(CompositionId(99)));
    let mut listed = tree.node_ids();
    listed.sort_by_key(|c| c.0);
    assert_eq!(listed, n);
}

#[test]
fn tree_remove_unlinks_from_the_parent() {
    let (mut tree, _, n) = chain();
    assert_eq!(tree.take_new_nodes(), n);
    assert!(tree.take_new_nodes().is_empty());
    let removed = tree.remove(n[1]).expect("present");
    assert_eq!(removed.id, n[1]);
    assert_eq!(tree.get(n[0]).expect("root").children, vec![n[3]]);
    // the children of a removed node stay
    assert!(tree.contains(n[2]));
    assert!(tree.remove(n[1]).is_none());
    assert_eq!(tree.take_removed_nodes(), vec![n[1]]);
    assert_eq!(remove_child(&vec![n[0], n[1], n[0]], n[0]), vec![n[1]]);
}

#[test]
fn tree_entities_and_dirty_marks() {
    let (mut tree, _, n) = chain();
    assert_eq!(tree.get_entity(n[2]), None);
    tree.set_entity(n[2], EntityId(42));
    tree.set_entity(CompositionId(99), EntityId(1));
    assert_eq!(tree.get_entity(n[2]), Some(EntityId(42)));
    assert_eq!(tree.get_entity(CompositionId(99)), None);
    tree.mark_clean(n[2]);
    assert!(!tree.get(n[2]).expect("low").dirty);
    tree.mark_dirty(n[2]);
    assert!(tree.get(n[2]).expect("low").dirty);
    tree.replace_modifiers(n[3], 77);
    assert_eq!(tree.get(n[3]).expect("side").modifiers, 77);
    tree.clear_pending();
    tree.clear();
    assert_eq!(tree.len(), 0);
    assert_eq!(tree.root(), None);
    assert!(tree.take_new_nodes().is_empty());
    let mut removed = tree.take_removed_nodes();
    removed.sort_by_key(|c| c.0);
    assert_eq!(removed, n);
}

#[test]
fn depth_counts_the_chain_of_parents() {
    let (mut tree, _, n) = chain();
    assert_eq!(get_node_depth(&tree, n[0]), 0);
    assert_eq!(get_node_depth(&tree, n[1]), 1);
    assert_eq!(get_node_depth(&tree, n[2]), 2);
    assert_eq!(get_node_depth(&tree, n[3]), 1);
    assert_eq!(get_node_depth(&tree, CompositionId(99)), 0);
    assert_eq!(order_by_depth(&tree, &vec![n[2], n[3], n[0], n[1]]), vec![n[0], n[3], n[1], n[2]]);
    // a cycle ends after as many steps as the tree has nodes
    tree.add_child(n[2], n[0]);
    assert_eq!(get_node_depth(&tree, n[0]), 4);
}

#[test]
fn recomposition_marks_nodes_clean() {
    let (mut tree, _, n) = chain();
    let mut dirty = DirtyFlags::new();
    assert!(dirty.is_empty());
    dirty.mark_recomposition(n[1]);
    dirty.mark_recomposition(n[2]);
    dirty.mark_recomposition(CompositionId(99));
    dirty.mark_layout(n[3]);
    dirty.mark_paint(n[0]);
    assert!(!dirty.is_empty());
    process_recompositions(&mut tree, &mut dirty);
    assert!(!tree.get(n[1]).expect("mid").dirty);
    assert!(!tree.get(n[2]).expect("low").dirty);
    assert!(tree.get(n[0]).expect("root").dirty);
    assert!(tree.get(n[3]).expect("side").dirty);
    // layout and paint are still noted
    assert!(!dirty.is_empty());
    dirty.clear();
    assert!(dirty.is_empty());
}

#[test]
fn remove_subtree_takes_the_descendants() {
    let (mut tree, _, n) = chain();
    tree.take_new_nodes();
    remove_subtree(&mut tree, n[1]);
    assert!(!tree.contains(n[1]) && !tree.contains(n[2]));
    assert!(tree.contains(n[0]) && tree.contains(n[3]));
    assert_eq!(tree.take_removed_nodes(), vec![n[2], n[1]]);
    assert_eq!(tree.get(n[0]).expect("root").children, vec![n[3]]);
    remove_subtree(&mut tree, CompositionId(99));
    assert_eq!(tree.len(), 2);
}

#[test]
fn reconcile_matches_by_key_and_by_position() {
    let mut ids = CompositionIds::new();
    let mut tree = Tree::new();
    let parent = tree.insert(leaf(&mut ids, 0));
    let a = tree.insert(keyed(&mut ids, "a", 1));
    let b = tree.insert(keyed(&mut ids, "b", 2));
    let plain1 = tree.insert(leaf(&mut ids, 3));
    let plain2 = tree.insert(leaf(&mut ids, 4));
    let old = vec![a, b, plain1, plain2, CompositionId(999)];
    for child in [a, b, plain1, plain2] {
        tree.add_child(parent, child);
    }
    tree.take_new_nodes();

    let new_b = keyed(&mut ids, "b", 20);
    let new_plain = leaf(&mut ids, 30);
    let new_c = keyed(&mut ids, "c", 40);
    let second_b = keyed(&mut ids, "b", 50);
    let (c_id, second_b_id) = (new_c.id, second_b.id);
    let result = reconcile_children(&mut tree, parent, &old, vec![new_b, new_plain, new_c, second_b]);
    assert_eq!(result, vec![b, plain1, c_id, second_b_id]);

    // matched children took the new modifiers and are dirty
    assert_eq!(tree.get(b).expect("kept").modifiers, 20);
    assert_eq!(tree.get(plain1).expect("kept").modifiers, 30);
    assert!(tree.get(b).expect("kept").dirty);
    // unmatched new children were inserted under the parent
    assert_eq!(tree.get(c_id).expect("inserted").parent, Some(parent));
    assert_eq!(tree.take_new_nodes(), vec![c_id, second_b_id]);
    // unmatched old children are gone
    assert!(!tree.contains(a));
    assert!(!tree.contains(plain2));
    let mut removed = tree.take_removed_nodes();
    removed.sort_by_key(|c| c.0);
    assert_eq!(removed, vec![a, plain2]);
    assert_eq!(tree.get(parent).expect("parent").children, vec![b, plain1, c_id, second_b_id]);
}

#[test]
fn reconcile_with_nothing_old_inserts_everything() {
    let mut ids = CompositionIds::new();
    let mut tree = Tree::new();
    let parent = tree.insert(leaf(&mut ids, 0));
    let x = leaf(&mut ids, 1);
    let y = keyed(&mut ids, "y", 2);
    let expected = vec![x.id, y.id];
    assert_eq!(reconcile_children(&mut tree, parent, &Vec::new(), vec![x, y]), expected);
    assert_eq!(tree.get(parent).expect("parent").children, expected);
    assert_eq!(reconcile_children(&mut tree, parent, &expected, Vec::new()), Vec::<CompositionId>::new());
    assert_eq!(tree.len(), 1);
}

#[test]
fn groups_push_and_pop_the_context() {
    let mut ctx: CompositionContext<u8, ()> = CompositionContext::new();
    assert!(!ctx.is_active());
    assert!(ctx.has_fresh_id());
    assert_eq!(ctx.current_parent(), None);
    let outer = ctx.start_group("greeting", None, 0);
    let inner = ctx.start_group("name", Some(CompositionKey::from("k".to_string())), 1);
    assert_eq!(outer, CompositionId(1));
    assert_eq!(inner, CompositionId(2));
    assert!(ctx.is_active());
    assert_eq!(ctx.current_parent(), Some(inner));
    ctx.end_group(inner);
    assert!(ctx.is_active());
    assert_eq!(ctx.current_parent(), Some(outer));
    ctx.end_group(outer);
    assert!(!ctx.is_active());
    let nodes = ctx.take_pending_nodes();
    assert_eq!(nodes.len(), 2);
    assert!(matches!(&nodes[0].composable_type, ComposableType::Custom(name) if name == "greeting"));
    assert!(nodes[1].key.as_ref().expect("keyed").same(&CompositionKey::from("k".to_string())));
    assert_eq!(nodes[1].modifiers, 1);
    assert!(ctx.take_pending_nodes().is_empty());

    assert!(!ctx.is_batching());
    ctx.begin_batch();
    assert!(ctx.is_batching());
    ctx.end_batch();
    assert!(!ctx.is_batching());
    ctx.start_group("a", None, 0);
    ctx.skip_to_end_group();
    assert!(ctx.is_active());
    assert_eq!(ctx.current_parent(), None);
}

#[test]
fn remove_subtree_ends_on_a_cycle() {
    let (mut tree, _, n) = chain();
    // the lowest node lists the root as its child
    tree.add_child(n[2], n[0]);
    tree.take_new_nodes();
    remove_subtree(&mut tree, n[1]);
    // everything hangs below the middle node now, through the cycle
    assert_eq!(tree.len(), 0);
    let removed = tree.take_removed_nodes();
    assert_eq!(removed, vec![n[3], n[0], n[2], n[1]]);
}

#[test]
fn detaching_leaves_no_note() {
    let (mut tree, _, n) = chain();
    let node = tree.detach(n[3]).expect("present");
    assert_eq!(node.parent, Some(n[0]));
    assert!(tree.detach(n[3]).is_none());
    assert!(tree.take_removed_nodes().is_empty());
    assert_eq!(tree.get(n[0]).expect("root").children, vec![n[1], n[3]]);
    tree.note_removed(n[3], node.parent);
    assert_eq!(tree.take_removed_nodes(), vec![n[3]]);
    assert_eq!(tree.get(n[0]).expect("root").children, vec![n[1]]);
}

