//! The scoped recomposition runtime: identifiers, the dirty set, the
//! composition context, the scope registry, reactive state and the frame
//! driver.

pub mod ids;
pub mod keyed;
pub mod dirty;
pub mod error;
pub mod context;
pub mod registry;
pub mod storage;
pub mod cells;
pub mod engine;

pub use ids::{EntityId, ScopeId, ScopeIds};
pub use dirty::DirtySet;
pub use error::CompositionError;
pub use context::{CompositionContext, Placement};
pub use registry::{ScopeInfo, ScopeRegistry};
pub use cells::{StateCells, StateId};
pub use engine::{OpenScope, Phase, Runtime};
pub use engine::driver::{FramePlan, Rebuild};
pub use engine::state::{State, StateError};
