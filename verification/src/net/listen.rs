//! The listener that `bind` returns.
//!
//! Each `accept` goes through three phases. It starts by consulting the
//! fault injector, which may impose a delay. While the delay lasts, the
//! listener hands out nothing, whatever waits in its queue. After that it
//! hands out the oldest waiting connection, or waits for one to arrive.

use vstd::prelude::*;
use crate::delay::{Delay, DelayState};
use crate::error::IoError;
use crate::fault::injected_deadline;
use crate::net::addr::Address;
use crate::net::network::Side;
use crate::net::stream::MemoryTcpStream;
use crate::poll::Poll;
use crate::deterministic::{DeterministicRuntime, RuntimeState};

verus! {

/// The time-to-live that a new listener reports.
pub const DEFAULT_TTL: u32 = u32::MAX;

/// Where an `accept` stands.
pub enum AcceptPhase {
    /// No `accept` is under way.
    Idle,
    /// The injected delay has not run out.
    Delaying(DelayState),
    /// The listener waits for a connection.
    Awaiting,
}

/// A listener as a mathematical value.
pub struct ListenerState {
    /// The listener's number in the network.
    pub id: usize,
    /// The address that it is bound to.
    pub local_addr: Address,
    pub ttl: u32,
    pub phase: AcceptPhase,
}

/// What one poll of `accept` leaves and returns.
pub struct AcceptOutcome {
    pub phase: AcceptPhase,
    pub runtime: RuntimeState,
    pub result: Poll<Result<(MemoryTcpStream, Address), IoError>>,
}

impl ListenerState {
    /// The first phase: an `accept` that starts consults the fault injector,
    /// and is delayed where it says so. An `accept` that is under way is left
    /// as it is.
    pub open spec fn roll(self, rt: RuntimeState) -> (AcceptPhase, RuntimeState) {
        match self.phase {
            AcceptPhase::Idle => {
                let f = rt.faults;
                let phase = match injected_deadline(
                    rt.rng,
                    rt.executor.now,
                    f.accept_delay_probability,
                    f.accept_delay_min,
                    f.accept_delay_max,
                ) {
                    Some(deadline) => AcceptPhase::Delaying(DelayState { deadline, timer: None }),
                    None => AcceptPhase::Awaiting,
                };
                (phase, rt.after_injection(f.accept_delay_probability))
            },
            phase => (phase, rt),
        }
    }

    /// The second phase: a delay is polled, and gives way to waiting for a
    /// connection once it is over.
    pub open spec fn wait(phase: AcceptPhase, rt: RuntimeState, task: usize) -> (
        AcceptPhase,
        RuntimeState,
    ) {
        match phase {
            AcceptPhase::Delaying(d) => {
                let after = RuntimeState { executor: d.poll_executor(rt.executor, task), ..rt };
                if d.poll_result(rt.executor.now) == Poll::Ready(()) {
                    (AcceptPhase::Awaiting, after)
                } else {
                    (AcceptPhase::Delaying(d.after_poll(rt.executor)), after)
                }
            },
            phase => (phase, rt),
        }
    }

    /// The third phase: a listener that waits for a connection takes the
    /// oldest from its queue. The server's end of it has the listener's
    /// address as its own and the client's address as its peer's.
    pub open spec fn take(self, phase: AcceptPhase, rt: RuntimeState, task: usize) -> AcceptOutcome {
        match phase {
            AcceptPhase::Awaiting => {
                let runtime = rt.accept(self.id, task);
                match rt.network.accept_result(self.id) {
                    Poll::Ready(Ok((conn, peer))) => AcceptOutcome {
                        phase: AcceptPhase::Idle,
                        runtime,
                        result: Poll::Ready(
                            Ok(
                                (
                                    MemoryTcpStream {
                                        conn,
                                        side: Side::Server,
                                        local: self.local_addr,
                                        peer,
                                    },
                                    peer,
                                ),
                            ),
                        ),
                    },
                    Poll::Ready(Err(e)) => AcceptOutcome {
                        phase: AcceptPhase::Idle,
                        runtime,
                        result: Poll::Ready(Err(e)),
                    },
                    Poll::Pending => AcceptOutcome {
                        phase: AcceptPhase::Awaiting,
                        runtime,
                        result: Poll::Pending,
                    },
                }
            },
            phase => AcceptOutcome { phase, runtime: rt, result: Poll::Pending },
        }
    }

    /// One poll of `accept` on behalf of `task`: the three phases in turn.
    pub open spec fn poll(self, rt: RuntimeState, task: usize) -> AcceptOutcome {
        let (rolled, rt1) = self.roll(rt);
        let (waited, rt2) = Self::wait(rolled, rt1, task);
        self.take(waited, rt2, task)
    }
}

/// An in-memory listener: connections made to its address queue up in the
/// network until it accepts them.
#[derive(Debug)]
pub struct MemoryListener {
    id: usize,
    local_addr: Address,
    ttl: u32,
    delay: Option<Delay>,
    awaiting: bool,
}

impl View for MemoryListener {
    type V = ListenerState;

    closed spec fn view(&self) -> ListenerState {
        ListenerState {
            id: self.id,
            local_addr: self.local_addr,
            ttl: self.ttl,
            phase: match self.delay {
                Some(d) => AcceptPhase::Delaying(d@),
                None => if self.awaiting {
                    AcceptPhase::Awaiting
                } else {
                    AcceptPhase::Idle
                },
            },
        }
    }
}

/// The stream of connections that `MemoryListener::incoming` returns.
#[must_use]
#[derive(Debug)]
pub struct Incoming {
    inner: MemoryListener,
}

impl View for Incoming {
    type V = ListenerState;

    closed spec fn view(&self) -> ListenerState {
        self.inner@
    }
}

impl Incoming {
    pub fn new(listener: MemoryListener) -> (s: Incoming)
        ensures
            s@ == listener@,
    {
        Incoming { inner: listener }
    }

    /// What `poll_next` makes of the answer of `accept`: the stream without
    /// the peer's address. The stream of connections never ends by itself.
    pub open spec fn next_of(r: Poll<Result<(MemoryTcpStream, Address), IoError>>) -> Poll<
        Option<Result<MemoryTcpStream, IoError>>,
    > {
        match r {
            Poll::Ready(Ok((stream, _))) => Poll::Ready(Some(Ok(stream))),
            Poll::Ready(Err(e)) => Poll::Ready(Some(Err(e))),
            Poll::Pending => Poll::Pending,
        }
    }

    /// Polls for the next connection, as `MemoryListener::poll_accept` does.
    pub fn poll_next(&mut self, rt: &mut DeterministicRuntime, task: usize) -> (r: Poll<
        Option<Result<MemoryTcpStream, IoError>>,
    >)
        requires
            old(rt).wf(),
            old(rt)@.can_inject(),
        ensures
            final(rt).wf(),
            r == Self::next_of(old(self)@.poll(old(rt)@, task).result),
            final(rt)@ == old(self)@.poll(old(rt)@, task).runtime,
            final(self)@ == (ListenerState {
                phase: old(self)@.poll(old(rt)@, task).phase,
                ..old(self)@
            }),
    {
        match self.inner.poll_accept(rt, task) {
            Poll::Ready(Ok((stream, _))) => Poll::Ready(Some(Ok(stream))),
            Poll::Ready(Err(e)) => Poll::Ready(Some(Err(e))),
            Poll::Pending => Poll::Pending,
        }
    }

    /// Gives the listener back.
    pub fn into_inner(self) -> (l: MemoryListener)
        ensures
            l@ == self@,
    {
        self.inner
    }
}

impl MemoryListener {
    /// The state of a listener that was just bound.
    pub open spec fn fresh(id: usize, addr: Address) -> ListenerState {
        ListenerState { id, local_addr: addr, ttl: DEFAULT_TTL, phase: AcceptPhase::Idle }
    }

    /// The listener for the binding `id` of the network, bound to `addr`.
    pub fn new(id: usize, addr: Address) -> (l: MemoryListener)
        ensures
            l@ == Self::fresh(id, addr),
    {
        MemoryListener { id, local_addr: addr, ttl: DEFAULT_TTL, delay: None, awaiting: false }
    }

    /// The listener's number in the network.
    pub fn id(&self) -> (id: usize)
        ensures
            id == self@.id,
    {
        self.id
    }

    /// Accepts a new incoming connection: returns the server's end of it and
    /// the address of the client. See `poll_accept`.
    pub fn accept(&mut self, rt: &mut DeterministicRuntime, task: usize) -> (r: Poll<
        Result<(MemoryTcpStream, Address), IoError>,
    >)
        requires
            old(rt).wf(),
            old(rt)@.can_inject(),
        ensures
            final(rt).wf(),
            r == old(self)@.poll(old(rt)@, task).result,
            final(rt)@ == old(self)@.poll(old(rt)@, task).runtime,
            final(self)@ == (ListenerState {
                phase: old(self)@.poll(old(rt)@, task).phase,
                ..old(self)@
            }),
    {
        self.poll_accept(rt, task)
    }

    /// One poll of `accept` on behalf of `task`.
    ///
    /// An `accept` that starts consults the fault injector. Where a delay is
    /// injected, the answer is `Pending` until a later poll finds that the
    /// clock has reached the delay's deadline; a timer wakes `task` then. After that the oldest
    /// waiting connection is handed out, and the next poll starts a new
    /// `accept`. Where no connection waits, the answer is `Pending` and
    /// `task` is woken when one arrives. A listener that has been closed
    /// answers `BrokenPipe`.
    pub fn poll_accept(&mut self, rt: &mut DeterministicRuntime, task: usize) -> (r: Poll<
        Result<(MemoryTcpStream, Address), IoError>,
    >)
        requires
            old(rt).wf(),
            old(rt)@.can_inject(),
        ensures
            final(rt).wf(),
            r == old(self)@.poll(old(rt)@, task).result,
            final(rt)@ == old(self)@.poll(old(rt)@, task).runtime,
            final(self)@ == (ListenerState {
                phase: old(self)@.poll(old(rt)@, task).phase,
                ..old(self)@
            }),
    {
        if self.delay.is_none() && !self.awaiting {
            let faults = rt.faults;
            match rt.maybe_random_delay(
                faults.accept_delay_probability,
                faults.accept_delay_min,
                faults.accept_delay_max,
            ) {
                Some(delay) => {
                    self.delay = Some(delay);
                },
                None => {
                    self.awaiting = true;
                },
            }
        }
        match self.delay.take() {
            Some(mut delay) => {
                match delay.poll(&mut rt.executor, task) {
                    Poll::Pending => {
                        self.delay = Some(delay);
                        return Poll::Pending;
                    },
                    Poll::Ready(_) => {
                        self.awaiting = true;
                    },
                }
            },
            None => {},
        }
        match rt.network.accept(self.id, task) {
            Poll::Ready(Ok((conn, peer))) => {
                self.awaiting = false;
                Poll::Ready(Ok((MemoryTcpStream::new_server(conn, self.local_addr, peer), peer)))
            },
            Poll::Ready(Err(e)) => {
                self.awaiting = false;
                Poll::Ready(Err(e))
            },
            Poll::Pending => Poll::Pending,
        }
    }

    /// The address that the listener is bound to.
    pub fn local_addr(&self) -> (r: Result<Address, IoError>)
        ensures
            r == Ok::<Address, IoError>(self@.local_addr),
    {
        Ok(self.local_addr)
    }

    /// The stream of the connections made to this listener.
    pub fn incoming(self) -> (s: Incoming)
        ensures
            s@ == self@,
    {
        Incoming::new(self)
    }

    /// The time-to-live: a number that is kept and given back, and changes
    /// nothing else.
    pub fn ttl(&self) -> (r: Result<u32, IoError>)
        ensures
            r == Ok::<u32, IoError>(self@.ttl),
    {
        Ok(self.ttl)
    }

    pub fn set_ttl(&mut self, ttl: u32) -> (r: Result<(), IoError>)
        ensures
            r.is_ok(),
            final(self)@ == (ListenerState { ttl, ..old(self)@ }),
    {
        self.ttl = ttl;
        Ok(())
    }

    /// The runtime after the listener went away: its address is free, its
    /// timer is taken back, and the connections that waited for it have lost
    /// their server end, which wakes the tasks that wait to read from them.
    pub open spec fn close_runtime(listener: ListenerState, rt: RuntimeState) -> RuntimeState {
        let executor = match listener.phase {
            AcceptPhase::Delaying(d) => d.cancel_executor(rt.executor),
            _ => rt.executor,
        };
        RuntimeState { executor, ..rt }.close_listener(listener.id)
    }

    /// Gives the listener up.
    pub fn close(self, rt: &mut DeterministicRuntime)
        requires
            old(rt).wf(),
        ensures
            final(rt).wf(),
            final(rt)@ == Self::close_runtime(self@, old(rt)@),
    {
        let mut this = self;
        match this.delay.take() {
            Some(mut delay) => {
                delay.cancel(&mut rt.executor);
            },
            None => {},
        }
        let woken = rt.network.close_listener(this.id);
        rt.executor.wake_each(&woken);
    }
}

/// While an injected delay lasts, `accept` hands out nothing, whatever waits
/// in the queue: the answer is `Pending`, and the network and the random
/// source are left as they were.
pub proof fn lemma_delayed_accept_waits(
    listener: ListenerState,
    d: DelayState,
    rt: RuntimeState,
    task: usize,
)
    requires
        listener.phase == AcceptPhase::Delaying(d),
        d.poll_result(rt.executor.now) == Poll::<()>::Pending,
    ensures
        listener.poll(rt, task).result == Poll::<
            Result<(MemoryTcpStream, Address), IoError>,
        >::Pending,
        listener.poll(rt, task).runtime.network == rt.network,
        listener.poll(rt, task).runtime.rng == rt.rng,
{
}

/// The fault injector is consulted when an `accept` starts and at no other
/// time: a poll of an `accept` that is under way draws nothing from the
/// random source, and a poll that starts one draws what
/// `rng_after_injection` says.
pub proof fn lemma_accept_draws_once(listener: ListenerState, rt: RuntimeState, task: usize)
    ensures
        !(listener.phase is Idle) ==> listener.poll(rt, task).runtime.rng == rt.rng,
        listener.phase is Idle ==> listener.poll(rt, task).runtime.rng
            == crate::fault::rng_after_injection(rt.rng, rt.faults.accept_delay_probability),
        listener.poll(rt, task).runtime.faults == rt.faults,
{
}

/// What `accept` hands out is the server's end of the oldest connection in
/// the listener's queue: its own address is the listener's, its peer's
/// address is the address that `accept` reports, and that is the address
/// that the client has as its own.
pub proof fn lemma_accept_hands_out_the_oldest(
    listener: ListenerState,
    rt: RuntimeState,
    task: usize,
)
    requires
        rt.network.inv(),
    ensures
        listener.poll(rt, task).result matches Poll::Ready(Ok(pair)) ==> {
            &&& rt.network.is_listening(listener.id)
            &&& rt.network.bindings[listener.id as int].backlog.len() > 0
            &&& pair.0.conn == rt.network.bindings[listener.id as int].backlog[0]
            &&& pair.0.conn < rt.network.conns.len()
            &&& pair.0.side == Side::Server
            &&& pair.0.local == listener.local_addr
            &&& pair.0.peer == pair.1
            &&& pair.1 == rt.network.conns[pair.0.conn as int].client_addr
            &&& listener.poll(rt, task).phase is Idle
        },
        listener.poll(rt, task).result matches Poll::Ready(Err(e)) ==> e == IoError::BrokenPipe
            && !rt.network.is_listening(listener.id),
{
    let (rolled, rt1) = listener.roll(rt);
    let (waited, rt2) = ListenerState::wait(rolled, rt1, task);
    assert(rt2.network == rt.network);
    crate::net::network::lemma_accept_reports_client_addr(rt.network, listener.id);
}

} // verus!
