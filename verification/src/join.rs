//! Waiting for a spawned task to complete.

use vstd::prelude::*;
use crate::error::Error;
use crate::executor::Executor;
use crate::poll::Poll;
use crate::deterministic::DeterministicRuntime;

verus! {

/// The handle on a task that was spawned for the sake of its result. The
/// result itself travels outside the runtime; the handle tells when it is
/// there.
#[derive(Debug, PartialEq, Eq, Structural)]
pub struct RemoteHandle {
    /// The task whose completion is awaited.
    pub task: usize,
}

impl RemoteHandle {
    /// Asks on behalf of `waiter` whether the task has completed. Where it
    /// has not, the answer is `Pending` and `waiter` is woken when it does.
    pub fn poll(&self, executor: &mut Executor, waiter: usize) -> (r: Poll<()>)
        requires
            old(executor).wf(),
        ensures
            final(executor).wf(),
            r == old(executor)@.join_result(self.task),
            final(executor)@ == old(executor)@.watch(self.task, waiter),
    {
        executor.poll_join(self.task, waiter)
    }
}

/// Spawns a task whose completion can be awaited, and returns the handle to
/// await it by. Fails once the root task has completed.
pub fn spawn_with_result(rt: &mut DeterministicRuntime) -> (r: Result<RemoteHandle, Error>)
    requires
        old(rt).wf(),
    ensures
        final(rt).wf(),
        final(rt)@ == old(rt)@.spawn(),
        old(rt)@.executor.finished ==> r == Err::<RemoteHandle, Error>(Error::SpawnAfterShutdown),
        !old(rt)@.executor.finished ==> r == Ok::<RemoteHandle, Error>(
            RemoteHandle { task: old(rt)@.executor.alive.len() as usize },
        ),
{
    match rt.spawn() {
        Ok(task) => Ok(RemoteHandle { task }),
        Err(e) => Err(e),
    }
}

} // verus!
