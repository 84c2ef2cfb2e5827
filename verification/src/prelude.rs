//! The names that most users of the crate need.

pub use crate::composition::{
    reconcile_children, remove_subtree, ComposableType, CompositionId, CompositionIds, CompositionKey,
    CompositionNode, CompositionTree, DirtyFlags,
};
pub use crate::layout::{
    AlignItems, Alignment2D, HorizontalAlignment, HorizontalArrangement, JustifyContent,
    VerticalAlignment, VerticalArrangement,
};
pub use crate::runtime::engine::compose::{interactive_leaf, leaf, with_implicit_scope, ForEach, If, IfElse};
pub use crate::runtime::engine::driver::{FramePlan, Rebuild};
pub use crate::runtime::engine::state::{State, StateError};
pub use crate::runtime::engine::{OpenScope, Phase, Runtime};
pub use crate::runtime::{
    CompositionError, DirtySet, EntityId, Placement, ScopeId, ScopeIds, ScopeInfo, ScopeRegistry, StateId,
};
pub use crate::state::{
    derived_state_of, disposable_effect, launched_effect, mutable_state_of, remember,
    remember_mutable_state, side_effect, DerivedState, DisposableEffect, MutableState, StateSlotManager,
};
pub use crate::window::{BecomposeApp, WindowConfig};
