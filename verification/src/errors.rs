use vstd::prelude::*;

verus! {

/// Why an operation ended without a result.
#[derive(Debug, Clone, Copy, PartialEq, Eq, Structural)]
pub enum OperationError {
    /// Cancellation was observed mid-operation; an in-progress build must be
    /// discarded by the caller, never reused.
    Interrupted,
    /// Accelerator resources could not be acquired for the requested
    /// configuration; fatal to the current attempt.
    ResourceCreationFailure,
}

pub type OperationResult<T> = Result<T, OperationError>;

} // verus!
