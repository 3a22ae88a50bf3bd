use vstd::prelude::*;

verus! {

/// The kinds of failure a caller can see.
#[derive(Clone, Copy, Debug, PartialEq, Eq, Structural)]
pub enum ErrorKind {
    /// The payload is malformed; rejected before it is queued.
    ValidationError,
    /// The local id has no record, or its record is inactive.
    NotFound,
    /// The caller lacks a required capability.
    Unauthorized,
    /// The remote call failed, a rate-limit rejection included.
    ExternalApiError,
    /// Local persistence failed.
    StorageError,
    /// A unique constraint was violated.
    AlreadyExists,
    /// A protocol violation, such as a completion handle dropped early.
    Internal,
    /// The queue is shutting down.
    Unavailable,
}

/// Why a command was not taken into a queue.
#[derive(Clone, Copy, Debug, PartialEq, Eq, Structural)]
pub enum SubmitError {
    /// The queue is at capacity; the caller should wait and try again.
    Full,
    /// The command was refused for good.
    Rejected(ErrorKind),
}

} // verus!
