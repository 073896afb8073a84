use vstd::prelude::*;

verus! {

/// The errors that the store and the repository report to their callers.
#[derive(Debug, Clone, Copy, PartialEq, Eq, Structural)]
pub enum DBError {
    /// The token could not be verified, whatever the reason.
    Unauthorized,
    /// The identity is already registered.
    AlreadyExists,
    /// The query window does not end after it starts.
    InvalidRange,
    /// The store could not carry out the operation.
    StorageFailure,
}

} // verus!
