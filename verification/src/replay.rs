//! Runs: what holds of every state that a runtime can reach, whatever its
//! tasks do.
//!
//! Everything that a task can do to the runtime comes down to a sequence of
//! the operations below. A run is the state that such a sequence leaves.

use vstd::prelude::*;
use crate::executor::{
    ExecutorState, lemma_poll_done_keeps_inv, lemma_spawn_keeps_inv, lemma_step_keeps_inv,
    lemma_time_moves_only_when_idle, lemma_timer_ops_keep_inv, lemma_wake_each_keeps_inv,
    lemma_wake_keeps_inv, lemma_clock_is_monotonic, lemma_fire_keeps_inv,
};
use crate::fault::FaultConfig;
use crate::net::addr::Address;
use crate::net::network::{
    Side, lemma_accept_keeps_inv, lemma_bind_keeps_inv, lemma_close_listener_keeps_inv,
    lemma_connect_keeps_inv, lemma_stream_ops_keep_inv,
};
use crate::rng::Probability;
use crate::deterministic::RuntimeState;
use crate::time::Instant;

verus! {

/// One operation on the runtime.
pub enum Op {
    /// The driver asks what to do next.
    Step,
    /// The driver tells how the poll ended.
    PollDone(bool),
    /// A task is spawned.
    Spawn,
    /// A task is woken.
    Wake(usize),
    /// The second task asks whether the first has completed.
    Watch(usize, usize),
    /// A timer is registered for a task.
    Register(Instant, usize),
    /// A timer is cancelled.
    Cancel(usize),
    /// The fault injector is consulted.
    Inject(Probability),
    /// An address is bound.
    Bind(Address),
    /// A connection is made to an address.
    Connect(Address),
    /// A task polls a listener's queue.
    Accept(usize, usize),
    /// A listener goes away.
    CloseListener(usize),
    /// Bytes are written on one end of a connection.
    Write(usize, Side, Seq<u8>),
    /// A task reads at most so many bytes on one end of a connection.
    Read(usize, Side, nat, usize),
    /// One end of a connection stops writing.
    Shutdown(usize, Side),
    /// One end of a connection goes away.
    Close(usize, Side),
}

/// The state that `op` leaves.
pub open spec fn apply(s: RuntimeState, op: Op) -> RuntimeState {
    match op {
        Op::Step => RuntimeState { executor: s.executor.after_step(), ..s },
        Op::PollDone(completed) => RuntimeState { executor: s.executor.poll_done(completed), ..s },
        Op::Spawn => s.spawn(),
        Op::Wake(t) => RuntimeState { executor: s.executor.wake(t), ..s },
        Op::Watch(t, waiter) => RuntimeState { executor: s.executor.watch(t, waiter), ..s },
        Op::Register(deadline, t) => RuntimeState {
            executor: s.executor.register(deadline, t),
            ..s
        },
        Op::Cancel(h) => RuntimeState { executor: s.executor.cancel(h), ..s },
        Op::Inject(p) => s.after_injection(p),
        Op::Bind(addr) => s.bind(addr),
        Op::Connect(addr) => s.connect(addr),
        Op::Accept(listener, t) => s.accept(listener, t),
        Op::CloseListener(listener) => s.close_listener(listener),
        Op::Write(conn, side, data) => s.write(conn, side, data),
        Op::Read(conn, side, max, t) => s.read(conn, side, max, t),
        Op::Shutdown(conn, side) => s.shutdown(conn, side),
        Op::Close(conn, side) => s.close(conn, side),
    }
}

/// The state that the operations `ops`, one after the other, leave.
pub open spec fn run(s: RuntimeState, ops: Seq<Op>) -> RuntimeState
    decreases ops.len(),
{
    if ops.len() == 0 {
        s
    } else {
        apply(run(s, ops.drop_last()), ops.last())
    }
}

/// One operation keeps the invariant, never turns the clock back, leaves the
/// fault configuration alone and adds at most one task.
pub proof fn lemma_apply_keeps_inv(s: RuntimeState, op: Op)
    requires
        s.inv(),
        s.executor.alive.len() < usize::MAX,
    ensures
        apply(s, op).inv(),
        apply(s, op).executor.now.nanos >= s.executor.now.nanos,
        apply(s, op).faults == s.faults,
        apply(s, op).executor.alive.len() <= s.executor.alive.len() + 1,
{
    let e = s.executor;
    let n = s.network;
    match op {
        Op::Step => {
            lemma_step_keeps_inv(e);
            lemma_clock_is_monotonic(e, 0, e.now, 0, false);
            lemma_step_frame(e);
        },
        Op::PollDone(completed) => {
            lemma_poll_done_keeps_inv(e, completed);
            lemma_clock_is_monotonic(e, 0, e.now, 0, completed);
            lemma_poll_done_frame(e, completed);
        },
        Op::Spawn => {
            lemma_spawn_keeps_inv(e);
        },
        Op::Wake(t) => {
            lemma_wake_keeps_inv(e, t);
        },
        Op::Watch(t, waiter) => {
            lemma_timer_ops_keep_inv(e, e.now, t, 0, waiter);
        },
        Op::Register(deadline, t) => {
            lemma_timer_ops_keep_inv(e, deadline, t, 0, 0);
        },
        Op::Cancel(h) => {
            lemma_timer_ops_keep_inv(e, e.now, 0, h, 0);
        },
        Op::Inject(p) => {},
        Op::Bind(addr) => {
            lemma_bind_keeps_inv(n, addr);
        },
        Op::Connect(addr) => {
            lemma_connect_keeps_inv(n, addr);
            match n.connect_result(addr) {
                Ok(c) => {
                    match c.wake {
                        Some(t) => {
                            lemma_wake_keeps_inv(e, t);
                        },
                        None => {},
                    }
                },
                Err(_) => {},
            }
        },
        Op::Accept(listener, t) => {
            lemma_accept_keeps_inv(n, listener, t);
        },
        Op::CloseListener(listener) => {
            lemma_close_listener_keeps_inv(n, listener);
            lemma_wake_each_keeps_inv(e, n.close_listener_wakes(listener));
        },
        Op::Write(conn, side, data) => {
            lemma_stream_ops_keep_inv(n, conn, side, data, 0, 0);
            match n.write_result(conn, side) {
                Ok(Some(t)) => {
                    lemma_wake_keeps_inv(e, t);
                },
                _ => {},
            }
        },
        Op::Read(conn, side, max, t) => {
            lemma_stream_ops_keep_inv(n, conn, side, Seq::empty(), max, t);
        },
        Op::Shutdown(conn, side) => {
            lemma_stream_ops_keep_inv(n, conn, side, Seq::empty(), 0, 0);
            match n.close_wake(conn, side) {
                Some(t) => {
                    lemma_wake_keeps_inv(e, t);
                },
                None => {},
            }
        },
        Op::Close(conn, side) => {
            lemma_stream_ops_keep_inv(n, conn, side, Seq::empty(), 0, 0);
            match n.close_wake(conn, side) {
                Some(t) => {
                    lemma_wake_keeps_inv(e, t);
                },
                None => {},
            }
        },
    }
}

/// A step adds no task.
proof fn lemma_step_frame(e: ExecutorState)
    requires
        e.inv(),
    ensures
        e.after_step().alive == e.alive,
{
    if !e.finished && e.polling.is_none() && e.ready.len() == 0 {
        match crate::timer::earliest_deadline(e.timers) {
            None => {},
            Some(t) => {
                lemma_fire_keeps_inv(e, crate::time::MockClock::advanced(e.now, t));
            },
        }
    }
}

/// The end of a poll adds no task.
proof fn lemma_poll_done_frame(e: ExecutorState, completed: bool)
    requires
        e.inv(),
    ensures
        e.poll_done(completed).alive.len() == e.alive.len(),
{
}

/// Every state that a run reaches satisfies the invariant; along a run the
/// clock never goes back; and the fault configuration stays what it was when
/// the runtime was built.
pub proof fn lemma_run_keeps_inv(s: RuntimeState, ops: Seq<Op>)
    requires
        s.inv(),
        s.executor.alive.len() + ops.len() <= usize::MAX,
    ensures
        run(s, ops).inv(),
        run(s, ops).executor.now.nanos >= s.executor.now.nanos,
        run(s, ops).faults == s.faults,
        run(s, ops).executor.alive.len() <= s.executor.alive.len() + ops.len(),
    decreases ops.len(),
{
    if ops.len() > 0 {
        lemma_run_keeps_inv(s, ops.drop_last());
        lemma_apply_keeps_inv(run(s, ops.drop_last()), ops.last());
    }
}

/// The clock is monotonic along a run: it reads no less after more of the
/// operations than after fewer.
pub proof fn lemma_run_clock_is_monotonic(s: RuntimeState, ops: Seq<Op>, i: int, j: int)
    requires
        s.inv(),
        s.executor.alive.len() + ops.len() <= usize::MAX,
        0 <= i <= j <= ops.len(),
    ensures
        run(s, ops.take(i)).executor.now.nanos <= run(s, ops.take(j)).executor.now.nanos,
    decreases j - i,
{
    if i < j {
        lemma_run_clock_is_monotonic(s, ops, i, j - 1);
        lemma_run_keeps_inv(s, ops.take(j - 1));
        assert(ops.take(j).drop_last() =~= ops.take(j - 1));
        lemma_apply_keeps_inv(run(s, ops.take(j - 1)), ops.take(j).last());
    }
}

/// Time moves only at quiescence: where an operation of a run changes the
/// clock, that operation is a step of the executor, and just before it no
/// task was waiting to be polled and none was being polled.
pub proof fn lemma_run_time_moves_only_when_idle(s: RuntimeState, ops: Seq<Op>, k: int)
    requires
        s.inv(),
        s.executor.alive.len() + ops.len() <= usize::MAX,
        0 <= k < ops.len(),
        run(s, ops.take(k + 1)).executor.now != run(s, ops.take(k)).executor.now,
    ensures
        ops[k] == Op::Step,
        run(s, ops.take(k)).executor.idle(),
        run(s, ops.take(k)).executor.ready.len() == 0,
{
    let before = run(s, ops.take(k));
    lemma_run_keeps_inv(s, ops.take(k));
    assert(ops.take(k + 1).drop_last() =~= ops.take(k));
    assert(ops.take(k + 1).last() == ops[k]);
    let e = before.executor;
    lemma_time_moves_only_when_idle(e);
    lemma_clock_is_monotonic(e, 0, e.now, 0, false);
    match ops[k] {
        Op::Step => {},
        Op::PollDone(completed) => {
            lemma_clock_is_monotonic(e, 0, e.now, 0, completed);
        },
        Op::Spawn => {},
        Op::Wake(t) => {},
        Op::Watch(t, waiter) => {},
        Op::Register(deadline, t) => {},
        Op::Cancel(h) => {},
        Op::Inject(p) => {},
        Op::Bind(addr) => {},
        Op::Connect(addr) => {
            match before.network.connect_result(addr) {
                Ok(c) => {
                    match c.wake {
                        Some(t) => {
                            lemma_wake_keeps_inv(e, t);
                        },
                        None => {},
                    }
                },
                Err(_) => {},
            }
        },
        Op::Accept(listener, t) => {},
        Op::CloseListener(listener) => {
            lemma_wake_each_keeps_inv(e, before.network.close_listener_wakes(listener));
        },
        Op::Write(conn, side, data) => {
            match before.network.write_result(conn, side) {
                Ok(Some(t)) => {
                    lemma_wake_keeps_inv(e, t);
                },
                _ => {},
            }
        },
        Op::Read(conn, side, max, t) => {},
        Op::Shutdown(conn, side) => {
            match before.network.close_wake(conn, side) {
                Some(t) => {
                    lemma_wake_keeps_inv(e, t);
                },
                None => {},
            }
        },
        Op::Close(conn, side) => {
            match before.network.close_wake(conn, side) {
                Some(t) => {
                    lemma_wake_keeps_inv(e, t);
                },
                None => {},
            }
        },
    }
}

/// A run is a function of the seed, the configuration and the operations:
/// two runtimes built alike, on which the same operations are performed, are
/// in the same state after every one of them.
pub proof fn lemma_same_seed_same_run(
    seed: u64,
    faults: FaultConfig,
    backlog_limit: nat,
    ops: Seq<Op>,
    k: int,
)
    requires
        0 <= k <= ops.len(),
    ensures
        forall|a: RuntimeState, b: RuntimeState|
            a == RuntimeState::initial(seed, faults, backlog_limit) && b == RuntimeState::initial(
                seed,
                faults,
                backlog_limit,
            ) ==> #[trigger] run(a, ops.take(k)) == #[trigger] run(b, ops.take(k)),
{
}

} // verus!
