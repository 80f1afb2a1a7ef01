//! Identifiers and error kinds shared by the runtime's operations.

use vstd::prelude::*;

verus! {

/// Identifies one runtime process.
#[derive(Clone, Debug)]
pub struct RuntimeId {
    pub id: String,
}

/// Identifies one live instance.
#[derive(Clone, Copy, Debug, PartialEq, Eq, Structural, Hash)]
pub struct WorkerHandle {
    pub id: u64,
}

/// Failures of operations on the runtime as a whole.
#[derive(Debug)]
pub enum GenericError {
    /// The bundle failed to compile or to register its callbacks.
    ScriptInitException(String),
    /// An invariant of the pool or of a channel was violated.
    Internal,
}

/// Failures of one request.
#[derive(Debug)]
pub enum ExecutionError {
    /// The handle is not in the registry.
    NoSuchWorker,
    /// The instance was torn down during the request.
    Terminated,
    /// The script threw during this request.
    ScriptError(String),
    /// The request's deadline expired.
    Timeout,
    /// An invariant of the pool or of a channel was violated.
    Internal,
}

/// How the start of an instance on a pool thread ended.
#[derive(Debug)]
pub enum Startup {
    /// The script was loaded; the value stands for the running instance.
    Ready(u64),
    /// Loading failed with the given error.
    Failed(GenericError),
    /// The thread went away without reporting.
    Dropped,
}

} // verus!
