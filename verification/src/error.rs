//! The error taxonomy shared by every operation of the engine.

use vstd::prelude::*;

verus! {

/// Why an operation of the engine was refused.
#[derive(Clone, Copy, Debug, PartialEq, Eq, Structural)]
pub enum EngineError {
    /// No progress record, or no role ladder, exists where one was needed.
    NotFound,
    /// The guild already has a role ladder; nothing was changed.
    AlreadyExists,
    /// A stored record could not be read back, or breaks its invariant.
    Corruption,
    /// A call to the outside role service failed.
    ExternalApiFailure,
    /// An argument was rejected before anything was changed.
    InvalidInput,
}

} // verus!
