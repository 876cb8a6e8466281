//! The library's error type.
use vstd::prelude::*;

verus! {

/// Why an operation of the library failed; each variant carries a
/// human-readable reason.
#[derive(Debug, Clone, PartialEq, Eq)]
pub enum ThatchError {
    /// The game state is not what the operation needs.
    InvalidState(String),
    /// The operation cannot be performed.
    InvalidAction(String),
    /// A level or a dungeon could not be generated.
    GenerationFailed(String),
    /// The content-enhancement service failed.
    LldmError(String),
}

/// Result type of the library.
pub type ThatchResult<T> = Result<T, ThatchError>;

} // verus!
