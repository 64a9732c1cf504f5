//! What can go wrong.

use vstd::prelude::*;

verus! {

/// A failure of the runtime itself.
#[derive(Clone, Copy, Debug, PartialEq, Eq, Structural)]
pub enum Error {
    /// The runtime could not be built.
    RuntimeBuild,
    /// A task was spawned after the executor had stopped taking work.
    SpawnAfterShutdown,
    /// Nothing can run and no timer is pending, yet the root task has not
    /// completed.
    ExecutorDeadlock,
}

/// A failure of a network operation, in the kinds of the host's I/O errors.
#[derive(Clone, Copy, Debug, PartialEq, Eq, Structural)]
pub enum IoError {
    /// The address is already bound.
    AddressInUse,
    /// Nobody listens at the address, or the listener takes no more
    /// connections.
    ConnectionRefused,
    /// The other side is gone.
    BrokenPipe,
}

/// A timeout ran out before the work it guarded was done.
#[derive(Clone, Copy, Debug, PartialEq, Eq, Structural)]
pub struct Elapsed {}

impl Error {
    /// A short name for the failure.
    pub fn name(&self) -> (s: &'static str)
        ensures
            s@ == match *self {
                Error::RuntimeBuild => "runtime build failed"@,
                Error::SpawnAfterShutdown => "spawn after shutdown"@,
                Error::ExecutorDeadlock => "executor deadlock"@,
            },
    {
        match self {
            Error::RuntimeBuild => "runtime build failed",
            Error::SpawnAfterShutdown => "spawn after shutdown",
            Error::ExecutorDeadlock => "executor deadlock",
        }
    }
}

impl IoError {
    /// A short name for the failure.
    pub fn name(&self) -> (s: &'static str)
        ensures
            s@ == match *self {
                IoError::AddressInUse => "address in use"@,
                IoError::ConnectionRefused => "connection refused"@,
                IoError::BrokenPipe => "broken pipe"@,
            },
    {
        match self {
            IoError::AddressInUse => "address in use",
            IoError::ConnectionRefused => "connection refused",
            IoError::BrokenPipe => "broken pipe",
        }
    }
}

} // verus!
