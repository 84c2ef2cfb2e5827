//! Errors of the composition runtime.

use vstd::prelude::*;

verus! {

/// What can go wrong while composing. Each of these is a programming error of
/// the caller; the runtime reports it and leaves the decision to the host.
#[derive(Clone, Copy, Debug, PartialEq, Eq, Structural)]
pub enum CompositionError {
    /// An operation that needs a composition pass was called outside one.
    NotComposing,
    /// A pass was started while the context was still in use.
    AlreadyComposing,
    /// A composable left the parent or scope stack different from how it
    /// found it.
    Unbalanced,
}

impl CompositionError {
    /// A short description of the error.
    pub fn message(&self) -> (text: String)
        ensures
            text@ == (match *self {
                CompositionError::NotComposing => "no composition pass is active"@,
                CompositionError::AlreadyComposing => "a composition pass is already active"@,
                CompositionError::Unbalanced => "unbalanced parent or scope stack"@,
            }),
    {
        match self {
            CompositionError::NotComposing => "no composition pass is active".to_string(),
            CompositionError::AlreadyComposing => "a composition pass is already active".to_string(),
            CompositionError::Unbalanced => "unbalanced parent or scope stack".to_string(),
        }
    }
}

} // verus!
