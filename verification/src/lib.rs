//! A reactive composition runtime with scoped recomposition.
//!
//! Composables emit a tree of renderer entities while the runtime records which
//! recomposition scope was active for every emission and every state read. A
//! write to a reactive state marks exactly the scopes that read it; the frame
//! driver then rebuilds those scopes, or the whole tree when the root scope is
//! among them.
//!
//! The runtime is passed explicitly: every operation takes the value it works
//! on. The renderer and the user's content closures stay outside; the frame
//! driver hands back what has to be done with them, step by step.

pub mod runtime;
pub mod state;
pub mod composition;
pub mod layout;
pub mod window;
pub mod prelude;
