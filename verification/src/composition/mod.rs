//! The composition tree: nodes with parent and children, the group context
//! that creates them, reconciliation of children by key and position, and
//! the dirty flags of a tree.

pub mod tree;
pub mod context;
pub mod recomposition;
pub mod reconciler;
pub mod entity_bridge;

pub use tree::{
    ComposableType, CompositionId, CompositionIds, CompositionKey, CompositionNode, CompositionTree,
    LayoutType, LeafType,
};
pub use context::CompositionContext;
pub use recomposition::{get_node_depth, process_recompositions, DirtyFlags};
pub use reconciler::{reconcile_children, remove_subtree};
pub use entity_bridge::{entities_to_despawn, CompositionBridge};
