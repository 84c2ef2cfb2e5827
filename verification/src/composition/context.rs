//! The group context: the stack of groups that are being composed, the nodes
//! they have produced, and the state slots of the composition.

use vstd::prelude::*;
use crate::composition::tree::{ComposableType, CompositionId, CompositionIds, CompositionKey, CompositionNode};
use crate::state::slot::StateSlotManager;

verus! {

/// State of a composition that is built from groups. `M` is what nodes carry
/// of modifiers, `S` what state slots hold.
pub struct CompositionContext<M, S> {
    ids: CompositionIds,
    node_stack: Vec<CompositionId>,
    state_manager: StateSlotManager<S>,
    pending_nodes: Vec<CompositionNode<M, S>>,
    batch_mode: bool,
    active: bool,
}

impl<M, S> CompositionContext<M, S> {
    /// The generator of node identifiers.
    pub closed spec fn ids(&self) -> CompositionIds {
        self.ids
    }

    /// The groups that are open, innermost last.
    pub closed spec fn stack(&self) -> Seq<CompositionId> {
        self.node_stack@
    }

    /// The nodes that were produced and not yet taken.
    pub closed spec fn pending(&self) -> Seq<CompositionNode<M, S>> {
        self.pending_nodes@
    }

    /// Whether updates are being batched.
    pub closed spec fn batching(&self) -> bool {
        self.batch_mode
    }

    /// Whether a group is open.
    pub closed spec fn active(&self) -> bool {
        self.active
    }

    /// The state slots of the composition.
    pub closed spec fn slots(&self) -> StateSlotManager<S> {
        self.state_manager
    }

    /// Everything but the state slots is as in `other`.
    pub open spec fn same_groups(&self, other: &CompositionContext<M, S>) -> bool {
        &&& self.ids() == other.ids()
        &&& self.stack() == other.stack()
        &&& self.pending() == other.pending()
        &&& self.batching() == other.batching()
        &&& self.active() == other.active()
    }

    /// A context in which nothing is open.
    pub fn new() -> (ctx: CompositionContext<M, S>)
        ensures
            ctx.ids().upcoming() == 1,
            ctx.stack() == Seq::<CompositionId>::empty(),
            ctx.pending() == Seq::<CompositionNode<M, S>>::empty(),
            !ctx.batching(),
            !ctx.active(),
            ctx.slots().slots() == Seq::<S>::empty(),
            ctx.slots().index() == 0,
    {
        CompositionContext {
            ids: CompositionIds::new(),
            node_stack: Vec::new(),
            state_manager: StateSlotManager::new(),
            pending_nodes: Vec::new(),
            batch_mode: false,
            active: false,
        }
    }

    /// Whether another group can be started.
    pub fn has_fresh_id(&self) -> (b: bool)
        ensures
            b == !self.ids().exhausted(),
    {
        self.ids.has_next()
    }

    /// Opens a group: a new node for the composable named `type_id`, with the
    /// given key and modifiers, is added to the pending nodes and becomes the
    /// innermost group. Returns the node's identifier.
    pub fn start_group(&mut self, type_id: &str, key: Option<CompositionKey>, modifiers: M) -> (id:
        CompositionId)
        requires
            !old(self).ids().exhausted(),
        ensures
            id.0 == old(self).ids().upcoming(),
            final(self).ids().upcoming() == old(self).ids().upcoming() + 1,
            final(self).active(),
            final(self).stack() == old(self).stack().push(id),
            final(self).pending().len() == old(self).pending().len() + 1,
            final(self).pending().drop_last() == old(self).pending(),
            final(self).pending().last().id == id,
            final(self).pending().last().key == key,
            final(self).pending().last().modifiers == modifiers,
            final(self).pending().last().dirty,
            final(self).pending().last().parent is None,
            final(self).pending().last().entity is None,
            final(self).pending().last().children@ == Seq::<CompositionId>::empty(),
            final(self).pending().last().state_slots@ == Seq::<S>::empty(),
            final(self).pending().last().composable_type matches ComposableType::Custom(name)
                && name@ == type_id@,
            final(self).batching() == old(self).batching(),
            final(self).slots() == old(self).slots(),
    {
        self.active = true;
        let node: CompositionNode<M, S> = CompositionNode::new(
            &mut self.ids,
            ComposableType::Custom(type_id.to_string()),
            modifiers,
        );
        let mut node = node;
        node.key = key;
        let id = node.id;
        self.pending_nodes.push(node);
        self.node_stack.push(id);
        assert(self.pending_nodes@.drop_last() =~= old(self).pending_nodes@);
        id
    }

    /// Closes the innermost group. When no group is left open the context is
    /// no longer active.
    pub fn end_group(&mut self, _id: CompositionId)
        ensures
            final(self).stack() == (if old(self).stack().len() > 0 {
                old(self).stack().drop_last()
            } else {
                old(self).stack()
            }),
            final(self).active() == (old(self).active() && final(self).stack().len() > 0),
            final(self).ids() == old(self).ids(),
            final(self).pending() == old(self).pending(),
            final(self).batching() == old(self).batching(),
            final(self).slots() == old(self).slots(),
    {
        self.node_stack.pop();
        if self.node_stack.len() == 0 {
            self.active = false;
        }
    }

    /// The innermost open group, if any.
    pub fn current_parent(&self) -> (parent: Option<CompositionId>)
        ensures
            parent == (if self.stack().len() > 0 {
                Some(self.stack().last())
            } else {
                None
            }),
    {
        let n = self.node_stack.len();
        if n > 0 {
            Some(self.node_stack[n - 1])
        } else {
            None
        }
    }

    /// Access to the state slots. What the caller does to them is what
    /// happens to the slots of the context; nothing else changes.
    pub fn state_manager(&mut self) -> (manager: &mut StateSlotManager<S>)
        ensures
            *manager == old(self).slots(),
            final(self).slots() == *final(manager),
            final(self).same_groups(old(self)),
    {
        &mut self.state_manager
    }

    /// Starts batching updates.
    pub fn begin_batch(&mut self)
        ensures
            final(self).batching(),
            final(self).ids() == old(self).ids(),
            final(self).stack() == old(self).stack(),
            final(self).pending() == old(self).pending(),
            final(self).active() == old(self).active(),
            final(self).slots() == old(self).slots(),
    {
        self.batch_mode = true;
    }

    /// Stops batching updates.
    pub fn end_batch(&mut self)
        ensures
            !final(self).batching(),
            final(self).ids() == old(self).ids(),
            final(self).stack() == old(self).stack(),
            final(self).pending() == old(self).pending(),
            final(self).active() == old(self).active(),
            final(self).slots() == old(self).slots(),
    {
        self.batch_mode = false;
    }

    /// Whether updates are being batched.
    pub fn is_batching(&self) -> (b: bool)
        ensures
            b == self.batching(),
    {
        self.batch_mode
    }

    /// Whether a group is open.
    pub fn is_active(&self) -> (b: bool)
        ensures
            b == self.active(),
    {
        self.active
    }

    /// Hands out the pending nodes, in the order in which they were produced,
    /// and leaves none pending.
    pub fn take_pending_nodes(&mut self) -> (nodes: Vec<CompositionNode<M, S>>)
        ensures
            nodes@ == old(self).pending(),
            final(self).pending() == Seq::<CompositionNode<M, S>>::empty(),
            final(self).ids() == old(self).ids(),
            final(self).stack() == old(self).stack(),
            final(self).batching() == old(self).batching(),
            final(self).active() == old(self).active(),
            final(self).slots() == old(self).slots(),
    {
        let mut nodes: Vec<CompositionNode<M, S>> = Vec::new();
        std::mem::swap(&mut nodes, &mut self.pending_nodes);
        nodes
    }

    /// Leaves the innermost group without closing it properly: the group is
    /// popped and the context stays as active as it was.
    pub fn skip_to_end_group(&mut self)
        ensures
            final(self).stack() == (if old(self).stack().len() > 0 {
                old(self).stack().drop_last()
            } else {
                old(self).stack()
            }),
            final(self).active() == old(self).active(),
            final(self).ids() == old(self).ids(),
            final(self).pending() == old(self).pending(),
            final(self).batching() == old(self).batching(),
            final(self).slots() == old(self).slots(),
    {
        self.node_stack.pop();
    }
}

} // verus!
