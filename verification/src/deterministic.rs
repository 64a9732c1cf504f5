//! The deterministic runtime: the executor, the network, the random source
//! and the fault configuration, under one seed.
//!
//! Everything that happens in a run is a function of the seed and of the
//! operations that the tasks perform: the runtime reads no clock, no
//! environment and no other source of chance.

use vstd::prelude::*;
use crate::delay::{Delay, DelayState, Timeout};
use crate::error::{Error, IoError};
use crate::executor::{Executor, ExecutorState, Step};
use crate::fault::{
    FaultConfig, injected_deadline, longest_delay, rng_after_injection, standard_faults,
};
use crate::net::addr::Address;
use crate::net::listen::MemoryListener;
use crate::net::network::{MemoryNetwork, NetworkState, Side};
use crate::net::stream::MemoryTcpStream;
use crate::rng::{Probability, SeededRng};
use crate::time::{Duration, Instant};

verus! {

/// How many connections may wait at one listener unless told otherwise.
pub const DEFAULT_BACKLOG: usize = 128;

/// The runtime as a mathematical value.
#[verifier::ext_equal]
pub struct RuntimeState {
    pub executor: ExecutorState,
    pub network: NetworkState,
    /// The state of the random source.
    pub rng: u64,
    pub faults: FaultConfig,
}

impl RuntimeState {
    /// The runtime that `seed` starts.
    pub open spec fn initial(seed: u64, faults: FaultConfig, backlog_limit: nat) -> RuntimeState {
        RuntimeState {
            executor: ExecutorState::initial(),
            network: NetworkState::initial(backlog_limit),
            rng: seed,
            faults,
        }
    }

    /// What holds of every state that the runtime can reach.
    pub open spec fn inv(self) -> bool {
        self.executor.inv() && self.network.inv()
    }

    /// Whether the clock is far enough from its end for the longest delay
    /// that the fault configuration can give.
    pub open spec fn can_inject(self) -> bool {
        self.executor.now.can_add(self.faults.longest())
    }

    /// The runtime after `spawn`: nothing changes once the root task has
    /// completed.
    pub open spec fn spawn(self) -> RuntimeState {
        if self.executor.finished {
            self
        } else {
            RuntimeState { executor: self.executor.spawn(), ..self }
        }
    }

    /// The runtime after `bind`.
    pub open spec fn bind(self, addr: Address) -> RuntimeState {
        RuntimeState { network: self.network.bind(addr), ..self }
    }

    /// The runtime after `task` polled the queue of `listener`.
    pub open spec fn accept(self, listener: usize, task: usize) -> RuntimeState {
        RuntimeState { network: self.network.accept(listener, task), ..self }
    }

    /// The runtime after `listener` went away: the tasks that waited to read
    /// from the connections in its queue are woken.
    pub open spec fn close_listener(self, listener: usize) -> RuntimeState {
        RuntimeState {
            network: self.network.close_listener(listener),
            executor: self.executor.wake_each(self.network.close_listener_wakes(listener)),
            ..self
        }
    }

    /// The runtime after `data` was written on `side` of `conn`: the bytes
    /// are queued for the other end, and the task that waited for them is
    /// woken.
    pub open spec fn write(self, conn: usize, side: Side, data: Seq<u8>) -> RuntimeState {
        RuntimeState {
            network: self.network.write(conn, side, data),
            executor: self.executor.wake_opt(
                match self.network.write_result(conn, side) {
                    Ok(t) => t,
                    Err(_) => None,
                },
            ),
            ..self
        }
    }

    /// The runtime after `task` read at most `max` bytes on `side` of `conn`.
    pub open spec fn read(self, conn: usize, side: Side, max: nat, task: usize) -> RuntimeState {
        RuntimeState { network: self.network.read(conn, side, max, task), ..self }
    }

    /// The runtime after `side` of `conn` stopped writing: the task that
    /// waited to read from it is woken.
    pub open spec fn shutdown(self, conn: usize, side: Side) -> RuntimeState {
        RuntimeState {
            network: self.network.shutdown(conn, side),
            executor: self.executor.wake_opt(self.network.close_wake(conn, side)),
            ..self
        }
    }

    /// The runtime after `side` of `conn` went away: the task that waited to
    /// read from it is woken.
    pub open spec fn close(self, conn: usize, side: Side) -> RuntimeState {
        RuntimeState {
            network: self.network.close(conn, side),
            executor: self.executor.wake_opt(self.network.close_wake(conn, side)),
            ..self
        }
    }

    /// The runtime after `connect`: the connection waits at the listener, and
    /// the task that waited in `accept` is woken.
    pub open spec fn connect(self, addr: Address) -> RuntimeState {
        RuntimeState {
            network: self.network.connect(addr),
            executor: self.executor.wake_opt(
                match self.network.connect_result(addr) {
                    Ok(c) => c.wake,
                    Err(_) => None,
                },
            ),
            ..self
        }
    }

    /// What `connect` returns: the client's end of the new connection, or
    /// `ConnectionRefused`.
    pub open spec fn connect_result(self, addr: Address) -> Result<MemoryTcpStream, IoError> {
        match self.network.connect_result(addr) {
            Ok(c) => Ok(
                MemoryTcpStream { conn: c.conn, side: Side::Client, local: c.local, peer: c.peer },
            ),
            Err(e) => Err(e),
        }
    }

    /// The runtime after the injector was consulted.
    pub open spec fn after_injection(self, p: Probability) -> RuntimeState {
        RuntimeState { rng: rng_after_injection(self.rng, p), ..self }
    }
}

/// The deterministic runtime.
pub struct DeterministicRuntime {
    pub executor: Executor,
    pub network: MemoryNetwork,
    pub rng: SeededRng,
    pub faults: FaultConfig,
}

impl View for DeterministicRuntime {
    type V = RuntimeState;

    open spec fn view(&self) -> RuntimeState {
        RuntimeState {
            executor: self.executor@,
            network: self.network@,
            rng: self.rng.state,
            faults: self.faults,
        }
    }
}

impl DeterministicRuntime {
    /// The runtime's invariant: those of the executor and of the network.
    pub open spec fn wf(&self) -> bool {
        self.executor.wf() && self.network.wf()
    }

    /// A well-formed runtime is in a state that satisfies the invariant.
    pub proof fn lemma_wf_inv(&self)
        requires
            self.wf(),
        ensures
            self@.inv(),
    {
        self.executor.lemma_wf_inv();
    }

    /// A runtime for `seed`, with the standard faults and the default
    /// backlog. Building it takes nothing from the host, so it never fails.
    pub fn new_with_seed(seed: u64) -> (r: Result<DeterministicRuntime, Error>)
        ensures
            r matches Ok(rt) && rt.wf() && rt@ == RuntimeState::initial(
                seed,
                standard_faults(),
                DEFAULT_BACKLOG as nat,
            ),
    {
        Ok(Self::with_config(seed, FaultConfig::standard(), DEFAULT_BACKLOG))
    }

    /// A runtime for `seed` with the faults `faults`, in which at most
    /// `backlog_limit` connections may wait at one listener.
    pub fn with_config(seed: u64, faults: FaultConfig, backlog_limit: usize) -> (rt:
        DeterministicRuntime)
        ensures
            rt.wf(),
            rt@ == RuntimeState::initial(seed, faults, backlog_limit as nat),
    {
        DeterministicRuntime {
            executor: Executor::new(),
            network: MemoryNetwork::new(backlog_limit),
            rng: SeededRng::new(seed),
            faults,
        }
    }

    /// The time now according to the executor.
    pub fn now(&self) -> (t: Instant)
        ensures
            t == self@.executor.now,
    {
        self.executor.now()
    }

    /// Whether the clock is far enough from its end for the longest delay
    /// that the fault configuration can give.
    pub fn can_inject(&self) -> (b: bool)
        ensures
            b == self@.can_inject(),
    {
        let longest = if self.faults.accept_delay_min.nanos < self.faults.accept_delay_max.nanos {
            self.faults.accept_delay_max
        } else {
            self.faults.accept_delay_min
        };
        self.executor.now().checked_add(longest).is_some()
    }

    /// Spawns a task and returns its number. Fails once the root task has
    /// completed.
    pub fn spawn(&mut self) -> (r: Result<usize, Error>)
        requires
            old(self).wf(),
        ensures
            final(self).wf(),
            old(self)@.executor.finished ==> r == Err::<usize, Error>(Error::SpawnAfterShutdown),
            !old(self)@.executor.finished ==> r == Ok::<usize, Error>(
                old(self)@.executor.alive.len() as usize,
            ),
            final(self)@ == old(self)@.spawn(),
    {
        self.executor.spawn()
    }

    /// A delay that is over at `deadline`.
    pub fn delay(&self, deadline: Instant) -> (d: Delay)
        ensures
            d@ == (DelayState { deadline, timer: None }),
    {
        Delay::new(deadline)
    }

    /// A delay that is over `from_now` after the present instant.
    pub fn delay_from(&self, from_now: Duration) -> (d: Delay)
        requires
            self@.executor.now.can_add(from_now),
        ensures
            d@ == (DelayState { deadline: self@.executor.now.spec_plus(from_now), timer: None }),
    {
        let now = self.now();
        self.delay(now.plus(from_now))
    }

    /// A timeout that runs out `timeout` after the present instant.
    pub fn timeout(&self, timeout: Duration) -> (t: Timeout)
        requires
            self@.executor.now.can_add(timeout),
        ensures
            t@ == (DelayState { deadline: self@.executor.now.spec_plus(timeout), timer: None }),
    {
        let now = self.now();
        Timeout::new(now.plus(timeout))
    }

    /// Consults the fault injector: with probability `p` returns a delay
    /// drawn from `[min, max)`, counted from now.
    pub fn maybe_random_delay(&mut self, p: Probability, min: Duration, max: Duration) -> (d:
        Option<Delay>)
        requires
            old(self).wf(),
            old(self)@.executor.now.can_add(longest_delay(min, max)),
        ensures
            final(self).wf(),
            final(self)@ == old(self)@.after_injection(p),
            match injected_deadline(old(self)@.rng, old(self)@.executor.now, p, min, max) {
                Some(deadline) => d matches Some(delay) && delay@ == (DelayState {
                    deadline,
                    timer: None,
                }),
                None => d.is_none(),
            },
    {
        let now = self.executor.now();
        match crate::fault::maybe_random_delay(&mut self.rng, now, p, min, max) {
            Some(deadline) => Some(Delay::new(deadline)),
            None => None,
        }
    }

    /// Binds a listener to `addr`. Fails with `AddressInUse` where one is
    /// bound there already.
    pub fn bind(&mut self, addr: Address) -> (r: Result<MemoryListener, IoError>)
        requires
            old(self).wf(),
        ensures
            final(self).wf(),
            final(self)@ == old(self)@.bind(addr),
            match old(self)@.network.bind_result(addr) {
                Ok(id) => r matches Ok(listener) && listener@ == MemoryListener::fresh(id, addr),
                Err(e) => r matches Err(f) && f == e,
            },
    {
        match self.network.bind(addr) {
            Ok(id) => Ok(MemoryListener::new(id, addr)),
            Err(e) => Err(e),
        }
    }

    /// Connects to the listener at `addr` and returns the client's end of the
    /// new connection. Fails at once with `ConnectionRefused` where no
    /// listener is bound to `addr` or its queue is full.
    pub fn connect(&mut self, addr: Address) -> (r: Result<MemoryTcpStream, IoError>)
        requires
            old(self).wf(),
        ensures
            final(self).wf(),
            r == old(self)@.connect_result(addr),
            final(self)@ == old(self)@.connect(addr),
    {
        match self.network.connect(addr) {
            Ok(c) => {
                self.executor.wake_opt(c.wake);
                Ok(MemoryTcpStream::new_client(c.conn, c.local, c.peer))
            },
            Err(e) => Err(e),
        }
    }

    /// Wakes `task`.
    pub fn wake(&mut self, task: usize)
        requires
            old(self).wf(),
        ensures
            final(self).wf(),
            final(self)@ == (RuntimeState {
                executor: old(self)@.executor.wake(task),
                ..old(self)@
            }),
    {
        self.executor.wake(task);
    }

    /// Decides what the driver of the run has to do next; see
    /// `Executor::next_step`.
    pub fn next_step(&mut self) -> (r: Result<Step, Error>)
        requires
            old(self).wf(),
        ensures
            final(self).wf(),
            r == old(self)@.executor.step_result(),
            final(self)@ == (RuntimeState {
                executor: old(self)@.executor.after_step(),
                ..old(self)@
            }),
    {
        self.executor.next_step()
    }

    /// Names the task to poll next, moving the clock as often as it takes;
    /// see `Executor::next_task`.
    pub fn next_task(&mut self) -> (r: Result<Option<usize>, Error>)
        requires
            old(self).wf(),
        ensures
            final(self).wf(),
            exists|n: nat|
                old(self)@.executor.settles_after(n) && r == ExecutorState::task_of(
                    (#[trigger] old(self)@.executor.steps(n)).step_result(),
                ) && final(self)@ == (RuntimeState {
                    executor: old(self)@.executor.steps(n + 1),
                    ..old(self)@
                }),
    {
        self.executor.next_task()
    }

    /// Reports how the poll of the task named by `next_step` ended; see
    /// `Executor::poll_done`.
    pub fn poll_done(&mut self, completed: bool)
        requires
            old(self).wf(),
        ensures
            final(self).wf(),
            final(self)@ == (RuntimeState {
                executor: old(self)@.executor.poll_done(completed),
                ..old(self)@
            }),
    {
        self.executor.poll_done(completed);
    }
}

} // verus!
