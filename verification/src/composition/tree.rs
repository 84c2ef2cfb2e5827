//! Nodes of the composition tree and their identifiers.

use vstd::prelude::*;
use std::collections::HashMap;
use std::collections::HashSet;
use crate::runtime::ids::EntityId;
use crate::runtime::keyed::key_list;

verus! {

broadcast use vstd::std_specs::hash::group_hash_axioms;

/// Identifier of a node of the composition tree.
#[derive(Clone, Copy, Debug, PartialEq, Eq, Structural, Hash)]
pub struct CompositionId(pub u64);

/// Monotonic generator of node identifiers, starting at 1.
pub struct CompositionIds {
    next: u64,
}

/// Key by which a child is found again when a list is reconciled.
#[derive(Clone, Debug, Hash)]
pub struct CompositionKey(pub String);

/// The kinds of layout container.
#[derive(Clone, Copy, Debug, PartialEq, Eq, Structural)]
pub enum LayoutType {
    Row,
    Column,
    Box,
    LazyColumn,
    LazyRow,
}

/// The kinds of leaf.
#[derive(Clone, Copy, Debug, PartialEq, Eq, Structural)]
pub enum LeafType {
    Text,
    Image,
    Spacer,
}

/// What kind of composable made a node.
#[derive(Clone, Debug)]
pub enum ComposableType {
    /// A layout container.
    Layout(LayoutType),
    /// A leaf.
    Leaf(LeafType),
    /// A composable function of the user, by name.
    Custom(String),
}

/// A node of the composition tree. `M` is what the node carries of
/// modifiers, `S` what it carries in its state slots.
pub struct CompositionNode<M, S> {
    /// The node's identifier.
    pub id: CompositionId,
    /// What kind of composable made the node.
    pub composable_type: ComposableType,
    /// The key by which the node is found again in a list.
    pub key: Option<CompositionKey>,
    /// The parent node.
    pub parent: Option<CompositionId>,
    /// The child nodes, in order.
    pub children: Vec<CompositionId>,
    /// The renderer entity of the node, once it has one.
    pub entity: Option<EntityId>,
    /// The node's state slots.
    pub state_slots: Vec<S>,
    /// The node's modifiers.
    pub modifiers: M,
    /// Whether the node awaits recomposition.
    pub dirty: bool,
}

impl CompositionIds {
    /// The value of the next identifier.
    pub closed spec fn upcoming(&self) -> u64 {
        self.next
    }

    /// No identifier is left.
    pub open spec fn exhausted(&self) -> bool {
        self.upcoming() == u64::MAX
    }

    /// A generator whose first identifier is 1.
    pub fn new() -> (ids: CompositionIds)
        ensures
            ids.upcoming() == 1,
    {
        CompositionIds { next: 1 }
    }

    /// Whether another identifier can be taken.
    pub fn has_next(&self) -> (b: bool)
        ensures
            b == !self.exhausted(),
    {
        self.next < u64::MAX
    }
}

impl CompositionId {
    /// Takes the next identifier from `ids`.
    pub fn new(ids: &mut CompositionIds) -> (id: CompositionId)
        requires
            !old(ids).exhausted(),
        ensures
            id.0 == old(ids).upcoming(),
            final(ids).upcoming() == old(ids).upcoming() + 1,
    {
        let id = CompositionId(ids.next);
        ids.next = ids.next + 1;
        id
    }
}

impl CompositionKey {
    /// The key with the given text.
    pub fn from(value: String) -> (key: CompositionKey)
        ensures
            key.0@ == value@,
    {
        CompositionKey(value)
    }

    /// Whether two keys have the same text.
    pub fn same(&self, other: &CompositionKey) -> (b: bool)
        ensures
            b == (self.0@ == other.0@),
    {
        self.0 == other.0
    }
}

impl<M, S> CompositionNode<M, S> {
    /// A dirty node of the given kind with a fresh identifier, without key,
    /// parent, children, entity or state.
    pub fn new(ids: &mut CompositionIds, composable_type: ComposableType, modifiers: M) -> (node:
        CompositionNode<M, S>)
        requires
            !old(ids).exhausted(),
        ensures
            node.id.0 == old(ids).upcoming(),
            final(ids).upcoming() == old(ids).upcoming() + 1,
            node.composable_type == composable_type,
            node.key is None,
            node.parent is None,
            node.children@ == Seq::<CompositionId>::empty(),
            node.entity is None,
            node.state_slots@ == Seq::<S>::empty(),
            node.modifiers == modifiers,
            node.dirty,
    {
        CompositionNode {
            id: CompositionId::new(ids),
            composable_type,
            key: None,
            parent: None,
            children: Vec::new(),
            entity: None,
            state_slots: Vec::new(),
            modifiers,
            dirty: true,
        }
    }

    /// The node with the given key.
    pub fn with_key(self, key: CompositionKey) -> (node: CompositionNode<M, S>)
        ensures
            node == (CompositionNode { key: Some(key), ..self }),
    {
        let mut node = self;
        node.key = Some(key);
        node
    }

    /// The node with the given modifiers.
    pub fn with_modifiers(self, modifiers: M) -> (node: CompositionNode<M, S>)
        ensures
            node == (CompositionNode { modifiers, ..self }),
    {
        let mut node = self;
        node.modifiers = modifiers;
        node
    }

    /// Whether the node awaits recomposition.
    pub fn is_dirty(&self) -> (b: bool)
        ensures
            b == self.dirty,
    {
        self.dirty
    }

    /// Marks the node as awaiting recomposition.
    pub fn mark_dirty(&mut self)
        ensures
            *final(self) == (CompositionNode { dirty: true, ..*old(self) }),
    {
        self.dirty = true;
    }

    /// Marks the node as recomposed.
    pub fn mark_clean(&mut self)
        ensures
            *final(self) == (CompositionNode { dirty: false, ..*old(self) }),
    {
        self.dirty = false;
    }
}

/// The composition tree: its nodes, its root, and what has changed since the
/// renderer was last brought up to date.
pub struct CompositionTree<M, S> {
    nodes: HashMap<u64, CompositionNode<M, S>>,
    root: Option<CompositionId>,
    pending_recomposition: HashSet<u64>,
    new_nodes: Vec<CompositionId>,
    removed_nodes: Vec<CompositionId>,
}

/// The map `m`, read with node identifiers as keys.
pub open spec fn by_node<V>(m: Map<u64, V>) -> Map<CompositionId, V> {
    Map::new(|id: CompositionId| m.contains_key(id.0), |id: CompositionId| m[id.0])
}

/// The nodes whose numbers are in `keys`.
pub open spec fn nodes_of(keys: Set<u64>) -> Set<CompositionId> {
    Set::new(|id: CompositionId| keys.contains(id.0))
}

/// Whether two nodes agree in everything but their children.
pub open spec fn same_but_children<M, S>(a: CompositionNode<M, S>, b: CompositionNode<M, S>) -> bool {
    &&& a.id == b.id
    &&& a.composable_type == b.composable_type
    &&& a.key == b.key
    &&& a.parent == b.parent
    &&& a.entity == b.entity
    &&& a.state_slots == b.state_slots
    &&& a.modifiers == b.modifiers
    &&& a.dirty == b.dirty
}

/// `children` without every occurrence of `id`.
pub open spec fn without_child(children: Seq<CompositionId>, id: CompositionId) -> Seq<CompositionId> {
    children.filter(|c: CompositionId| c != id)
}

/// What is left of the children is every child but `id`.
pub proof fn lemma_without_child(children: Seq<CompositionId>, id: CompositionId, c: CompositionId)
    ensures
        without_child(children, id).contains(c) <==> children.contains(c) && c != id,
    decreases children.len(),
{
    reveal(Seq::filter);
    if children.len() > 0 {
        let shorter = children.drop_last();
        let rest = without_child(shorter, id);
        lemma_without_child(shorter, id, c);
        let all = without_child(children, id);
        assert(all == (if children.last() != id {
            rest.push(children.last())
        } else {
            rest
        }));
        if children.contains(c) {
            let w = choose|w: int| 0 <= w < children.len() && children[w] == c;
            if w < children.len() - 1 {
                assert(shorter[w] == c);
            }
        }
        if shorter.contains(c) {
            let w = choose|w: int| 0 <= w < shorter.len() && shorter[w] == c;
            assert(children[w] == c);
        }
        if rest.contains(c) {
            let w = choose|w: int| 0 <= w < rest.len() && rest[w] == c;
            if children.last() != id {
                assert(rest.push(children.last())[w] == c);
            }
        }
        if all.contains(c) && children.last() != id {
            let w = choose|w: int| 0 <= w < all.len() && all[w] == c;
            if w < rest.len() {
                assert(rest[w] == c);
            } else {
                assert(children[children.len() - 1] == c);
            }
        }
        if c == children.last() && c != id {
            assert(all[rest.len() as int] == c);
        }
    }
}

/// Whether `after` is `before` with the node `at` replaced by a node that
/// has the same fields but for its children, which are `children`.
pub open spec fn children_replaced<M, S>(
    before: Map<CompositionId, CompositionNode<M, S>>,
    after: Map<CompositionId, CompositionNode<M, S>>,
    at: CompositionId,
    children: Seq<CompositionId>,
) -> bool {
    &&& after.dom() == before.dom()
    &&& after.remove(at) == before.remove(at)
    &&& same_but_children(after[at], before[at])
    &&& after[at].children@ == children
}

/// Reading a map under node identifiers keeps its size.
pub proof fn lemma_by_node_size<V>(m: Map<u64, V>)
    requires
        m.dom().finite(),
    ensures
        by_node(m).dom().finite(),
        by_node(m).dom().len() == m.dom().len(),
    decreases m.dom().len(),
{
    if m.dom().len() == 0 {
        assert(m.dom() =~= Set::<u64>::empty());
        assert(by_node(m).dom() =~= Set::<CompositionId>::empty());
    } else {
        let k = m.dom().choose();
        let rest = m.remove(k);
        lemma_by_node_size(rest);
        assert(by_node(m).dom() =~= by_node(rest).dom().insert(CompositionId(k)));
        assert(!by_node(rest).dom().contains(CompositionId(k)));
    }
}

/// Copies `children` without every occurrence of `id`.
pub fn remove_child(children: &Vec<CompositionId>, id: CompositionId) -> (kept: Vec<CompositionId>)
    ensures
        kept@ == without_child(children@, id),
{
    let mut kept: Vec<CompositionId> = Vec::new();
    let mut i: usize = 0;
    proof {
        reveal(Seq::filter);
        assert(children@.take(0).len() == 0);
    }
    while i < children.len()
        invariant
            i <= children.len(),
            kept@ == without_child(children@.take(i as int), id),
        decreases children.len() - i,
    {
        proof {
            reveal(Seq::filter);
            let pred = |c: CompositionId| c != id;
            let next = children@.take(i + 1);
            assert(next.drop_last() =~= children@.take(i as int));
            assert(next.last() == children@[i as int]);
            assert(next.filter(pred) == (if pred(next.last()) {
                next.drop_last().filter(pred).push(next.last())
            } else {
                next.drop_last().filter(pred)
            }));
        }
        if children[i] != id {
            kept.push(children[i]);
        }
        i = i + 1;
    }
    assert(children@.take(i as int) =~= children@);
    kept
}

impl<M, S> CompositionTree<M, S> {
    /// The nodes of the tree.
    pub closed spec fn nodes(&self) -> Map<CompositionId, CompositionNode<M, S>> {
        by_node(self.nodes@)
    }

    /// The root node, if one is set.
    pub closed spec fn root_id(&self) -> Option<CompositionId> {
        self.root
    }

    /// The nodes that await recomposition.
    pub closed spec fn pending(&self) -> Set<CompositionId> {
        nodes_of(self.pending_recomposition@)
    }

    /// The nodes that were inserted and have no entity yet, oldest first.
    pub closed spec fn new_nodes(&self) -> Seq<CompositionId> {
        self.new_nodes@
    }

    /// The nodes that were removed and whose entities are still to be
    /// despawned, oldest first.
    pub closed spec fn removed_nodes(&self) -> Seq<CompositionId> {
        self.removed_nodes@
    }

    /// Everything but the nodes is as in `other`.
    pub open spec fn same_but_nodes(&self, other: &CompositionTree<M, S>) -> bool {
        &&& self.root_id() == other.root_id()
        &&& self.pending() == other.pending()
        &&& self.new_nodes() == other.new_nodes()
        &&& self.removed_nodes() == other.removed_nodes()
    }

    /// An empty tree.
    pub fn new() -> (tree: CompositionTree<M, S>)
        ensures
            tree.nodes() == Map::<CompositionId, CompositionNode<M, S>>::empty(),
            tree.root_id() is None,
            tree.pending() == Set::<CompositionId>::empty(),
            tree.new_nodes() == Seq::<CompositionId>::empty(),
            tree.removed_nodes() == Seq::<CompositionId>::empty(),
    {
        let tree = CompositionTree {
            nodes: HashMap::new(),
            root: None,
            pending_recomposition: HashSet::new(),
            new_nodes: Vec::new(),
            removed_nodes: Vec::new(),
        };
        assert(tree.nodes() =~= Map::<CompositionId, CompositionNode<M, S>>::empty());
        assert(tree.pending() =~= Set::<CompositionId>::empty());
        tree
    }

    /// The root node, if one is set.
    pub fn root(&self) -> (root: Option<CompositionId>)
        ensures
            root == self.root_id(),
    {
        self.root
    }

    /// Makes `id` the root.
    pub fn set_root(&mut self, id: CompositionId)
        ensures
            final(self).root_id() == Some(id),
            final(self).nodes() == old(self).nodes(),
            final(self).pending() == old(self).pending(),
            final(self).new_nodes() == old(self).new_nodes(),
            final(self).removed_nodes() == old(self).removed_nodes(),
    {
        self.root = Some(id);
    }

    /// The node `id`, if the tree has it.
    pub fn get(&self, id: CompositionId) -> (node: Option<&CompositionNode<M, S>>)
        ensures
            node == (if self.nodes().contains_key(id) {
                Some(&self.nodes()[id])
            } else {
                None
            }),
    {
        self.nodes.get(&id.0)
    }

    /// Number of nodes.
    pub fn len(&self) -> (n: usize)
        ensures
            n == self.nodes().dom().len(),
            self.nodes().dom().finite(),
    {
        proof {
            lemma_by_node_size(self.nodes@);
        }
        self.nodes.len()
    }

    /// Whether the tree has the node `id`.
    pub fn contains(&self, id: CompositionId) -> (b: bool)
        ensures
            b == self.nodes().contains_key(id),
    {
        self.nodes.contains_key(&id.0)
    }

    /// Puts `node` into the tree under its own identifier, in place of any
    /// node that had it, and notes it as new.
    pub fn insert(&mut self, node: CompositionNode<M, S>) -> (id: CompositionId)
        ensures
            id == node.id,
            final(self).nodes() == old(self).nodes().insert(node.id, node),
            final(self).new_nodes() == old(self).new_nodes().push(node.id),
            final(self).root_id() == old(self).root_id(),
            final(self).pending() == old(self).pending(),
            final(self).removed_nodes() == old(self).removed_nodes(),
    {
        let id = node.id;
        self.new_nodes.push(id);
        self.nodes.insert(id.0, node);
        assert(self.nodes() =~= old(self).nodes().insert(node.id, node));
        id
    }

    /// The tree has finitely many nodes.
    pub proof fn lemma_finite(&self)
        ensures
            self.nodes().dom().finite(),
    {
        lemma_by_node_size(self.nodes@);
    }

    /// Takes the node `id` out of the tree without noting it as removed and
    /// without touching its parent.
    pub fn detach(&mut self, id: CompositionId) -> (node: Option<CompositionNode<M, S>>)
        ensures
            final(self).same_but_nodes(old(self)),
            final(self).nodes() == old(self).nodes().remove(id),
            node == (if old(self).nodes().contains_key(id) {
                Some(old(self).nodes()[id])
            } else {
                None
            }),
    {
        let node = self.nodes.remove(&id.0);
        assert(self.nodes() =~= old(self).nodes().remove(id));
        node
    }

    /// Notes the detached node `id`, whose parent was `parent`, as removed.
    /// Where the parent is in the tree, it no longer lists the node as a
    /// child.
    pub fn note_removed(&mut self, id: CompositionId, parent: Option<CompositionId>)
        ensures
            final(self).root_id() == old(self).root_id(),
            final(self).pending() == old(self).pending(),
            final(self).new_nodes() == old(self).new_nodes(),
            final(self).removed_nodes() == old(self).removed_nodes().push(id),
            match parent {
                Some(p) => if old(self).nodes().contains_key(p) {
                    children_replaced(
                        old(self).nodes(),
                        final(self).nodes(),
                        p,
                        without_child(old(self).nodes()[p].children@, id),
                    )
                } else {
                    final(self).nodes() == old(self).nodes()
                },
                None => final(self).nodes() == old(self).nodes(),
            },
    {
        self.removed_nodes.push(id);
        match parent {
            Some(parent_id) => {
                match self.nodes.remove(&parent_id.0) {
                    Some(parent) => {
                        let kept = remove_child(&parent.children, id);
                        let updated = CompositionNode {
                            id: parent.id,
                            composable_type: parent.composable_type,
                            key: parent.key,
                            parent: parent.parent,
                            children: kept,
                            entity: parent.entity,
                            state_slots: parent.state_slots,
                            modifiers: parent.modifiers,
                            dirty: parent.dirty,
                        };
                        self.nodes.insert(parent_id.0, updated);
                        proof {
                            assert(self.nodes().dom() =~= old(self).nodes().dom());
                            assert(self.nodes().remove(parent_id) =~= old(self).nodes().remove(parent_id));
                        }
                    },
                    None => {
                        assert(self.nodes() =~= old(self).nodes());
                    },
                }
            },
            None => {},
        }
    }

    /// Takes the node `id` out of the tree and notes it as removed. Where its
    /// parent is still in the tree, the parent no longer lists it as a
    /// child. The children of the node stay in the tree.
    pub fn remove(&mut self, id: CompositionId) -> (node: Option<CompositionNode<M, S>>)
        ensures
            final(self).root_id() == old(self).root_id(),
            final(self).pending() == old(self).pending(),
            final(self).new_nodes() == old(self).new_nodes(),
            !old(self).nodes().contains_key(id) ==> node is None && final(self).nodes()
                == old(self).nodes() && final(self).removed_nodes() == old(self).removed_nodes(),
            old(self).nodes().contains_key(id) ==> {
                let rest = old(self).nodes().remove(id);
                &&& node == Some(old(self).nodes()[id])
                &&& final(self).removed_nodes() == old(self).removed_nodes().push(id)
                &&& match old(self).nodes()[id].parent {
                    Some(p) => if rest.contains_key(p) {
                        children_replaced(rest, final(self).nodes(), p, without_child(rest[p].children@, id))
                    } else {
                        final(self).nodes() == rest
                    },
                    None => final(self).nodes() == rest,
                }
            },
    {
        match self.detach(id) {
            Some(node) => {
                self.note_removed(id, node.parent);
                Some(node)
            },
            None => {
                assert(self.nodes() =~= old(self).nodes());
                None
            },
        }
    }

    /// Makes `child_id` a child of `parent_id`: the parent, where the tree
    /// has it, lists the child last; then the child, where the tree has it,
    /// names the parent.
    pub fn add_child(&mut self, parent_id: CompositionId, child_id: CompositionId)
        ensures
            final(self).same_but_nodes(old(self)),
            final(self).nodes().dom() == old(self).nodes().dom(),
            forall|k: CompositionId| #[trigger]
                final(self).nodes().contains_key(k) && k != parent_id && k != child_id
                    ==> final(self).nodes()[k] == old(self).nodes()[k],
            old(self).nodes().contains_key(parent_id) ==> {
                let before = old(self).nodes()[parent_id];
                let after = final(self).nodes()[parent_id];
                &&& after.children@ == before.children@.push(child_id)
                &&& after.parent == (if parent_id == child_id {
                    Some(parent_id)
                } else {
                    before.parent
                })
                &&& after.id == before.id
                &&& after.composable_type == before.composable_type
                &&& after.key == before.key
                &&& after.entity == before.entity
                &&& after.state_slots == before.state_slots
                &&& after.modifiers == before.modifiers
                &&& after.dirty == before.dirty
            },
            old(self).nodes().contains_key(child_id) && child_id != parent_id ==> {
                let before = old(self).nodes()[child_id];
                let after = final(self).nodes()[child_id];
                &&& after.parent == Some(parent_id)
                &&& after.children == before.children
                &&& after.id == before.id
                &&& after.composable_type == before.composable_type
                &&& after.key == before.key
                &&& after.entity == before.entity
                &&& after.state_slots == before.state_slots
                &&& after.modifiers == before.modifiers
                &&& after.dirty == before.dirty
            },
    {
        match self.nodes.remove(&parent_id.0) {
            Some(parent) => {
                let mut parent = parent;
                parent.children.push(child_id);
                self.nodes.insert(parent_id.0, parent);
            },
            None => {},
        }
        assert(self.nodes().dom() =~= old(self).nodes().dom());
        match self.nodes.remove(&child_id.0) {
            Some(child) => {
                let mut child = child;
                child.parent = Some(parent_id);
                self.nodes.insert(child_id.0, child);
            },
            None => {},
        }
        assert(self.nodes().dom() =~= old(self).nodes().dom());
    }

    /// Notes the renderer entity of the node `node_id`, where the tree has
    /// the node.
    pub fn set_entity(&mut self, node_id: CompositionId, entity: EntityId)
        ensures
            final(self).same_but_nodes(old(self)),
            final(self).nodes() == (if old(self).nodes().contains_key(node_id) {
                old(self).nodes().insert(
                    node_id,
                    (CompositionNode { entity: Some(entity), ..old(self).nodes()[node_id] }),
                )
            } else {
                old(self).nodes()
            }),
    {
        match self.nodes.remove(&node_id.0) {
            Some(node) => {
                let mut node = node;
                node.entity = Some(entity);
                self.nodes.insert(node_id.0, node);
                assert(self.nodes() =~= old(self).nodes().insert(
                    node_id,
                    (CompositionNode { entity: Some(entity), ..old(self).nodes()[node_id] }),
                ));
            },
            None => {
                assert(self.nodes() =~= old(self).nodes());
            },
        }
    }

    /// The renderer entity of the node `node_id`, if the tree has the node
    /// and the node has an entity.
    pub fn get_entity(&self, node_id: CompositionId) -> (entity: Option<EntityId>)
        ensures
            entity == (if self.nodes().contains_key(node_id) {
                self.nodes()[node_id].entity
            } else {
                None
            }),
    {
        match self.nodes.get(&node_id.0) {
            Some(node) => node.entity,
            None => None,
        }
    }

    /// Marks the node `id` dirty and notes it as awaiting recomposition,
    /// where the tree has the node.
    pub fn mark_dirty(&mut self, id: CompositionId)
        ensures
            final(self).root_id() == old(self).root_id(),
            final(self).new_nodes() == old(self).new_nodes(),
            final(self).removed_nodes() == old(self).removed_nodes(),
            old(self).nodes().contains_key(id) ==> {
                &&& final(self).nodes() == old(self).nodes().insert(
                    id,
                    (CompositionNode { dirty: true, ..old(self).nodes()[id] }),
                )
                &&& final(self).pending() == old(self).pending().insert(id)
            },
            !old(self).nodes().contains_key(id) ==> {
                &&& final(self).nodes() == old(self).nodes()
                &&& final(self).pending() == old(self).pending()
            },
    {
        match self.nodes.remove(&id.0) {
            Some(node) => {
                let mut node = node;
                node.mark_dirty();
                self.nodes.insert(id.0, node);
                self.pending_recomposition.insert(id.0);
                assert(self.nodes() =~= old(self).nodes().insert(
                    id,
                    (CompositionNode { dirty: true, ..old(self).nodes()[id] }),
                ));
                assert(self.pending() =~= old(self).pending().insert(id));
            },
            None => {
                assert(self.nodes() =~= old(self).nodes());
            },
        }
    }

    /// Marks the node `id` as recomposed, where the tree has the node.
    pub fn mark_clean(&mut self, id: CompositionId)
        ensures
            final(self).same_but_nodes(old(self)),
            final(self).nodes() == (if old(self).nodes().contains_key(id) {
                old(self).nodes().insert(id, (CompositionNode { dirty: false, ..old(self).nodes()[id] }))
            } else {
                old(self).nodes()
            }),
    {
        match self.nodes.remove(&id.0) {
            Some(node) => {
                let mut node = node;
                node.mark_clean();
                self.nodes.insert(id.0, node);
                assert(self.nodes() =~= old(self).nodes().insert(
                    id,
                    (CompositionNode { dirty: false, ..old(self).nodes()[id] }),
                ));
            },
            None => {
                assert(self.nodes() =~= old(self).nodes());
            },
        }
    }

    /// Gives the node `id` new modifiers and marks it dirty, where the tree
    /// has the node. The node is not noted as awaiting recomposition.
    pub fn replace_modifiers(&mut self, id: CompositionId, modifiers: M)
        ensures
            final(self).same_but_nodes(old(self)),
            final(self).nodes() == (if old(self).nodes().contains_key(id) {
                old(self).nodes().insert(
                    id,
                    (CompositionNode { modifiers, dirty: true, ..old(self).nodes()[id] }),
                )
            } else {
                old(self).nodes()
            }),
    {
        match self.nodes.remove(&id.0) {
            Some(node) => {
                let mut node = node;
                node.modifiers = modifiers;
                node.mark_dirty();
                self.nodes.insert(id.0, node);
                assert(self.nodes() =~= old(self).nodes().insert(
                    id,
                    (CompositionNode { modifiers, dirty: true, ..old(self).nodes()[id] }),
                ));
            },
            None => {
                assert(self.nodes() =~= old(self).nodes());
            },
        }
    }

    /// The identifiers of the nodes, each once, in no particular order.
    pub fn node_ids(&self) -> (ids: Vec<CompositionId>)
        ensures
            ids@.no_duplicates(),
            ids@.to_set() == self.nodes().dom(),
    {
        let keys = key_list(&self.nodes);
        let mut ids: Vec<CompositionId> = Vec::new();
        let mut i: usize = 0;
        while i < keys.len()
            invariant
                i <= keys.len(),
                ids@.len() == i,
                forall|j: int| 0 <= j < i ==> (#[trigger] ids@[j]).0 == keys@[j],
            decreases keys.len() - i,
        {
            ids.push(CompositionId(keys[i]));
            i = i + 1;
        }
        proof {
            assert forall|a: int, b: int| 0 <= a < ids@.len() && 0 <= b < ids@.len() && a != b implies ids@[a]
                != ids@[b] by {
                assert(ids@[a].0 == keys@[a]);
                assert(ids@[b].0 == keys@[b]);
            }
            assert forall|id: CompositionId| ids@.to_set().contains(id) <==> self.nodes().dom().contains(
                id,
            ) by {
                if ids@.contains(id) {
                    let j = choose|j: int| 0 <= j < ids@.len() && ids@[j] == id;
                    assert(keys@[j] == id.0);
                    assert(keys@.contains(id.0));
                    assert(keys@.to_set().contains(id.0));
                }
                if self.nodes().dom().contains(id) {
                    assert(keys@.to_set().contains(id.0));
                    assert(keys@.contains(id.0));
                    let j = choose|j: int| 0 <= j < keys@.len() && keys@[j] == id.0;
                    assert(ids@[j].0 == id.0);
                    assert(ids@[j] == id);
                }
            }
            assert(ids@.to_set() =~= self.nodes().dom());
        }
        ids
    }

    /// The nodes that were inserted since the last call, oldest first; none
    /// is noted as new afterwards.
    pub fn take_new_nodes(&mut self) -> (ids: Vec<CompositionId>)
        ensures
            ids@ == old(self).new_nodes(),
            final(self).new_nodes() == Seq::<CompositionId>::empty(),
            final(self).nodes() == old(self).nodes(),
            final(self).root_id() == old(self).root_id(),
            final(self).pending() == old(self).pending(),
            final(self).removed_nodes() == old(self).removed_nodes(),
    {
        let mut ids: Vec<CompositionId> = Vec::new();
        std::mem::swap(&mut ids, &mut self.new_nodes);
        ids
    }

    /// The nodes that were removed since the last call, oldest first; none
    /// is noted as removed afterwards.
    pub fn take_removed_nodes(&mut self) -> (ids: Vec<CompositionId>)
        ensures
            ids@ == old(self).removed_nodes(),
            final(self).removed_nodes() == Seq::<CompositionId>::empty(),
            final(self).nodes() == old(self).nodes(),
            final(self).root_id() == old(self).root_id(),
            final(self).pending() == old(self).pending(),
            final(self).new_nodes() == old(self).new_nodes(),
    {
        let mut ids: Vec<CompositionId> = Vec::new();
        std::mem::swap(&mut ids, &mut self.removed_nodes);
        ids
    }

    /// Empties the set of nodes that await recomposition.
    pub fn clear_pending(&mut self)
        ensures
            final(self).pending() == Set::<CompositionId>::empty(),
            final(self).nodes() == old(self).nodes(),
            final(self).root_id() == old(self).root_id(),
            final(self).new_nodes() == old(self).new_nodes(),
            final(self).removed_nodes() == old(self).removed_nodes(),
    {
        self.pending_recomposition.clear();
        assert(self.pending() =~= Set::<CompositionId>::empty());
    }

    /// Empties the tree. Every node it had is noted as removed, each once,
    /// behind those that were noted already; nothing is noted as new or as
    /// awaiting recomposition, and there is no root.
    pub fn clear(&mut self)
        ensures
            final(self).nodes() == Map::<CompositionId, CompositionNode<M, S>>::empty(),
            final(self).root_id() is None,
            final(self).pending() == Set::<CompositionId>::empty(),
            final(self).new_nodes() == Seq::<CompositionId>::empty(),
            final(self).removed_nodes().len()
                == old(self).removed_nodes().len() + old(self).nodes().dom().len(),
            final(self).removed_nodes().take(old(self).removed_nodes().len() as int)
                == old(self).removed_nodes(),
            final(self).removed_nodes().skip(old(self).removed_nodes().len() as int).no_duplicates(),
            final(self).removed_nodes().skip(old(self).removed_nodes().len() as int).to_set()
                == old(self).nodes().dom(),
    {
        let ids = self.node_ids();
        let ghost base = old(self).removed_nodes@;
        let mut i: usize = 0;
        while i < ids.len()
            invariant
                i <= ids.len(),
                self.nodes == old(self).nodes,
                self.removed_nodes@ == base + ids@.take(i as int),
            decreases ids.len() - i,
        {
            self.removed_nodes.push(ids[i]);
            assert(ids@.take(i + 1) =~= ids@.take(i as int).push(ids@[i as int]));
            assert(self.removed_nodes@ =~= base + ids@.take(i + 1));
            i = i + 1;
        }
        proof {
            assert(ids@.take(i as int) =~= ids@);
            assert((base + ids@).take(base.len() as int) =~= base);
            assert((base + ids@).skip(base.len() as int) =~= ids@);
            ids@.unique_seq_to_set();
        }
        self.nodes.clear();
        self.root = None;
        self.pending_recomposition.clear();
        self.new_nodes.clear();
        assert(self.nodes() =~= Map::<CompositionId, CompositionNode<M, S>>::empty());
        assert(self.pending() =~= Set::<CompositionId>::empty());
    }
}

} // verus!
