//! State that lives across recompositions: slots that a composable fills on
//! its first run and finds again on later ones, values derived from other
//! state, effects that run when a key changes, and a versioned state holder.

pub mod slot;
pub mod derived_state;
pub mod effects;
pub mod remember;
pub mod mutable_state;

pub use slot::StateSlotManager;
pub use derived_state::{derived_state_of, DerivedState};
pub use effects::{disposable_effect, launched_effect, side_effect, DisposableEffect};
pub use remember::{remember, remember_mutable_state};
pub use mutable_state::{mutable_state_of, MutableState};
