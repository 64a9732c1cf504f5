//! Delays and timeouts, as the state that a waiting task keeps.
//!
//! The first poll of a delay registers a timer that will wake the task, and
//! answers `Pending`. A later poll answers `Ready` once the clock reads the
//! deadline or more. A timeout is a delay that races some other work of the
//! task.

use vstd::prelude::*;
use crate::error::{Elapsed, Error};
use crate::executor::{
    Executor, ExecutorState, Step, lemma_wake_all_keeps_inv, lemma_wake_all_wakes,
};
use crate::poll::Poll;
use crate::time::Instant;
use crate::timer::{
    due, firing_order, is_earliest, lemma_earliest_unique, lemma_firing_order_exists,
};

verus! {

/// A delay as a mathematical value.
pub struct DelayState {
    /// When the delay is over.
    pub deadline: Instant,
    /// The timer that will wake the waiting task, once registered.
    pub timer: Option<usize>,
}

impl DelayState {
    /// Whether the delay is over at `now`.
    pub open spec fn is_elapsed(self, now: Instant) -> bool {
        now.nanos >= self.deadline.nanos
    }

    /// What a poll returns when the clock reads `now`: the first poll only
    /// registers the timer; a later one answers `Ready` once the deadline is
    /// reached.
    pub open spec fn poll_result(self, now: Instant) -> Poll<()> {
        if self.timer.is_some() && self.is_elapsed(now) {
            Poll::Ready(())
        } else {
            Poll::Pending
        }
    }

    /// The executor after `task` polled the delay: the first poll registers
    /// a timer, and the poll that finds the delay over takes the timer back.
    pub open spec fn poll_executor(self, e: ExecutorState, task: usize) -> ExecutorState {
        match self.timer {
            None => e.register(self.deadline, task),
            Some(h) => if self.is_elapsed(e.now) {
                e.cancel(h)
            } else {
                e
            },
        }
    }

    /// The delay after it was polled.
    pub open spec fn after_poll(self, e: ExecutorState) -> DelayState {
        match self.timer {
            None => DelayState { timer: Some(e.issued as usize), ..self },
            Some(_) => self,
        }
    }

    /// The executor after the delay was given up.
    pub open spec fn cancel_executor(self, e: ExecutorState) -> ExecutorState {
        match self.timer {
            Some(h) => e.cancel(h),
            None => e,
        }
    }
}

/// A delay: a deadline, and the timer that was registered for it.
#[derive(Debug)]
pub struct Delay {
    deadline: Instant,
    timer: Option<usize>,
}

impl View for Delay {
    type V = DelayState;

    closed spec fn view(&self) -> DelayState {
        DelayState { deadline: self.deadline, timer: self.timer }
    }
}

impl Delay {
    /// A delay that is over at `deadline`. Nothing is registered until the
    /// delay is polled.
    pub fn new(deadline: Instant) -> (d: Delay)
        ensures
            d@ == (DelayState { deadline, timer: None }),
    {
        Delay { deadline, timer: None }
    }

    pub fn deadline(&self) -> (t: Instant)
        ensures
            t == self@.deadline,
    {
        self.deadline
    }

    /// Whether the delay is over at `now`.
    pub fn is_elapsed(&self, now: Instant) -> (b: bool)
        ensures
            b == self@.is_elapsed(now),
    {
        now.nanos >= self.deadline.nanos
    }

    /// Polls the delay on behalf of `task`. The first poll registers a timer
    /// for `task` and answers `Pending`, whatever the clock reads: a delay
    /// never resolves in the pass in which it was first polled. A later poll
    /// answers `Ready` exactly when the clock reads the deadline or more.
    pub fn poll(&mut self, executor: &mut Executor, task: usize) -> (r: Poll<()>)
        requires
            old(executor).wf(),
        ensures
            final(executor).wf(),
            r == old(self)@.poll_result(old(executor)@.now),
            final(executor)@ == old(self)@.poll_executor(old(executor)@, task),
            final(self)@ == old(self)@.after_poll(old(executor)@),
    {
        match self.timer {
            None => {
                let h = executor.register_timer(self.deadline, task);
                self.timer = Some(h);
                Poll::Pending
            },
            Some(h) => {
                if executor.now().nanos >= self.deadline.nanos {
                    executor.cancel_timer(h);
                    Poll::Ready(())
                } else {
                    Poll::Pending
                }
            },
        }
    }

    /// Gives the delay up: its timer, if any, is taken back.
    pub fn cancel(&mut self, executor: &mut Executor)
        requires
            old(executor).wf(),
        ensures
            final(executor).wf(),
            final(executor)@ == old(self)@.cancel_executor(old(executor)@),
            final(self)@ == (DelayState { timer: None, ..old(self)@ }),
    {
        match self.timer {
            Some(h) => {
                executor.cancel_timer(h);
                self.timer = None;
            },
            None => {},
        }
    }
}

/// What a poll of a timeout returns where the guarded work is done or not
/// (`inner_ready`), the timeout's timer is registered or not (`registered`)
/// and the clock reads `now`: the work wins where it is done, even if the
/// time has run out as well.
pub open spec fn timeout_result(
    inner_ready: bool,
    registered: bool,
    deadline: Instant,
    now: Instant,
) -> Poll<Result<(), Elapsed>> {
    if inner_ready {
        Poll::Ready(Ok(()))
    } else if registered && now.nanos >= deadline.nanos {
        Poll::Ready(Err(Elapsed {  }))
    } else {
        Poll::Pending
    }
}

/// A timeout: a delay that races some other work of the task that holds it.
#[derive(Debug)]
pub struct Timeout {
    delay: Delay,
}

impl View for Timeout {
    type V = DelayState;

    closed spec fn view(&self) -> DelayState {
        self.delay@
    }
}

impl Timeout {
    /// A timeout that runs out at `deadline`.
    pub fn new(deadline: Instant) -> (t: Timeout)
        ensures
            t@ == (DelayState { deadline, timer: None }),
    {
        Timeout { delay: Delay::new(deadline) }
    }

    pub fn deadline(&self) -> (t: Instant)
        ensures
            t == self@.deadline,
    {
        self.delay.deadline()
    }

    /// Polls the timeout on behalf of `task`, after the task has polled the
    /// guarded work and found it done or not (`inner_ready`). Where the work
    /// is done the answer is `Ok` and the timer is taken back; else the
    /// first poll registers the timer and answers `Pending`, and a later one
    /// answers `Elapsed` once the clock reads the deadline or more.
    pub fn poll(&mut self, executor: &mut Executor, task: usize, inner_ready: bool) -> (r: Poll<
        Result<(), Elapsed>,
    >)
        requires
            old(executor).wf(),
        ensures
            final(executor).wf(),
            r == timeout_result(
                inner_ready,
                old(self)@.timer.is_some(),
                old(self)@.deadline,
                old(executor)@.now,
            ),
            inner_ready ==> final(executor)@ == old(self)@.cancel_executor(old(executor)@)
                && final(self)@ == (DelayState { timer: None, ..old(self)@ }),
            !inner_ready ==> final(executor)@ == old(self)@.poll_executor(old(executor)@, task)
                && final(self)@ == old(self)@.after_poll(old(executor)@),
    {
        if inner_ready {
            self.delay.cancel(executor);
            Poll::Ready(Ok(()))
        } else {
            match self.delay.poll(executor, task) {
                Poll::Ready(_) => Poll::Ready(Err(Elapsed {  })),
                Poll::Pending => Poll::Pending,
            }
        }
    }

    /// Gives the timeout up: its timer, if any, is taken back.
    pub fn cancel(&mut self, executor: &mut Executor)
        requires
            old(executor).wf(),
        ensures
            final(executor).wf(),
            final(executor)@ == old(self)@.cancel_executor(old(executor)@),
            final(self)@ == (DelayState { timer: None, ..old(self)@ }),
    {
        self.delay.cancel(executor);
    }
}

/// A delay is not over before its time: where a delay made at `start` for
/// the span `d` answers `Ready`, the clock reads `start + d` or more.
pub proof fn lemma_delay_waits(
    start: Instant,
    d: crate::time::Duration,
    timer: Option<usize>,
    now: Instant,
)
    requires
        start.can_add(d),
        (DelayState { deadline: start.spec_plus(d), timer }).poll_result(now) == Poll::Ready(()),
    ensures
        now.nanos >= start.nanos + d.nanos,
{
}

/// A delay of no time at all still waits for the executor: its first poll
/// answers `Pending` and registers a timer that is due at once; and when
/// nothing else can run, the executor's next step fires that timer and wakes
/// the task without moving the clock.
pub proof fn lemma_zero_delay_resolves_without_moving_clock(e: ExecutorState, task: usize)
    requires
        e.inv(),
        task < e.alive.len(),
        e.alive[task as int],
        e.idle(),
        !e.finished,
        e.issued <= usize::MAX,
        forall|h: usize| #[trigger]
            e.timers.contains_key(h) ==> e.timers[h].deadline.nanos >= e.now.nanos,
    ensures
        (DelayState { deadline: e.now, timer: None }).poll_result(e.now) == Poll::<()>::Pending,
        ({
            let registered = (DelayState { deadline: e.now, timer: None }).poll_executor(e, task);
            &&& registered.after_step().now == e.now
            &&& registered.step_result() == Ok::<Step, Error>(Step::Advanced(e.now))
            &&& registered.after_step().ready.contains(task)
            &&& (DelayState { deadline: e.now, timer: Some(e.issued as usize) }).poll_result(
                registered.after_step().now,
            ) == Poll::Ready(())
        }),
{
    let r = e.register(e.now, task);
    let h = e.issued as usize;
    assert(r.timers.contains_key(h));
    assert(is_earliest(r.timers, e.now)) by {
        assert(r.timers[h].deadline == e.now);
        assert forall|k: usize| #[trigger] r.timers.contains_key(k) implies e.now.nanos
            <= r.timers[k].deadline.nanos by {
            if k != h {
                assert(e.timers.contains_key(k));
            }
        }
    }
    lemma_earliest_unique(r.timers, e.now);
    let fired = firing_order(r.timers, e.now);
    assert forall|x: usize| #[trigger] r.timers.contains_key(x) implies x < r.issued by {
        if x != h {
            assert(e.timers.contains_key(x));
        }
    }
    lemma_firing_order_exists(r.timers, e.now, r.issued);
    let k = choose|k: int| 0 <= k < fired.len() && (#[trigger] fired[k]).handle == h;
    assert(fired[k].task == task);
    let mid = ExecutorState { now: e.now, timers: r.timers.remove_keys(due(r.timers, e.now)), ..r };
    assert forall|x: usize| #[trigger] mid.timers.contains_key(x) implies x < mid.issued by {
        assert(r.timers.contains_key(x));
        if x != h {
            assert(e.timers.contains_key(x));
        }
    }
    lemma_wake_all_keeps_inv(mid, fired);
    lemma_wake_all_wakes(mid, fired, k);
    assert(r.after_step() == mid.wake_all(fired));
}

/// A timeout that guards a delay, both registered: where the delay's
/// deadline is no later than the timeout's, the answer is never `Elapsed`,
/// and it is `Ok` as soon as the delay is over; where the timeout's deadline
/// is earlier, the answer is `Elapsed` at every instant from the timeout's
/// deadline up to, and not including, the delay's.
pub proof fn lemma_timeout_races_delay(inner: Instant, outer: Instant, now: Instant)
    ensures
        inner.nanos <= outer.nanos ==> timeout_result(now.nanos >= inner.nanos, true, outer, now)
            != Poll::Ready(Err::<(), Elapsed>(Elapsed {  })),
        inner.nanos <= outer.nanos && now.nanos >= inner.nanos ==> timeout_result(
            now.nanos >= inner.nanos,
            true,
            outer,
            now,
        ) == Poll::Ready(Ok::<(), Elapsed>(())),
        outer.nanos <= now.nanos < inner.nanos ==> timeout_result(
            now.nanos >= inner.nanos,
            true,
            outer,
            now,
        ) == Poll::Ready(Err::<(), Elapsed>(Elapsed {  })),
{
}

} // verus!
