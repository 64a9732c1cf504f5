//! The cooperative executor: who is polled next, and when time moves.
//!
//! The executor does not hold the tasks themselves. It hands out the number
//! of the task to poll, is told how the poll ended, and decides from that
//! alone. Tasks are polled in the order in which they became ready. Time
//! moves only when nothing is ready, and then only to the earliest pending
//! deadline.
//!
//! A task that wakes while the queue is being worked off (a new task too) is
//! put behind everything that is already waiting, so it is polled in the next
//! pass over the queue, never in the one that is under way.

use std::collections::VecDeque;
use vstd::prelude::*;
use crate::error::Error;
use crate::poll::Poll;
use crate::time::{Instant, MockClock};
use crate::timer::{
    Expired, Timer, TimerWheel, due, earliest_deadline, firing_order, is_earliest,
    lemma_earliest_exists,
};

verus! {

/// The task whose completion ends the run.
pub const ROOT_TASK: usize = 0;

/// What the driver of the executor has to do next.
#[derive(Clone, Copy, Debug, PartialEq, Eq, Structural)]
pub enum Step {
    /// Poll the task with this number, then call `poll_done`.
    Poll(usize),
    /// Nothing was ready: the clock has been moved to the earliest pending
    /// deadline (or left alone where that deadline was reached already), and
    /// the timers due then have fired. The instant is the clock's reading.
    /// Ask again.
    Advanced(Instant),
    /// The root task has completed.
    Finished,
}

/// The executor as a mathematical value.
#[verifier::ext_equal]
pub struct ExecutorState {
    /// The clock's reading.
    pub now: Instant,
    /// The pending timers, by handle.
    pub timers: Map<usize, Timer>,
    /// How many timers were ever registered.
    pub issued: nat,
    /// The tasks that wait to be polled, first to be polled first.
    pub ready: Seq<usize>,
    /// For every task ever spawned, whether it has not completed yet.
    pub alive: Seq<bool>,
    /// For every task ever spawned, the task that waits for its completion,
    /// if one does.
    pub watchers: Seq<Option<usize>>,
    /// The task that is being polled, if one is.
    pub polling: Option<usize>,
    /// Whether the task that is being polled was woken during its poll.
    pub rewake: bool,
    /// Whether the root task has completed.
    pub finished: bool,
}

impl ExecutorState {
    /// A fresh executor: the clock at the epoch, no timers, and the root task
    /// waiting to be polled.
    pub open spec fn initial() -> ExecutorState {
        ExecutorState {
            now: Instant { nanos: 0 },
            timers: Map::empty(),
            issued: 0,
            ready: seq![ROOT_TASK],
            alive: seq![true],
            watchers: seq![None],
            polling: None,
            rewake: false,
            finished: false,
        }
    }

    /// What holds of every state that the executor can reach.
    pub open spec fn inv(self) -> bool {
        &&& 1 <= self.alive.len() <= usize::MAX
        &&& self.watchers.len() == self.alive.len()
        &&& self.finished == !self.alive[0]
        &&& forall|i: int|
            0 <= i < self.ready.len() ==> (#[trigger] self.ready[i]) < self.alive.len()
                && self.alive[self.ready[i] as int]
        &&& self.ready.no_duplicates()
        &&& self.polling matches Some(t) ==> t < self.alive.len() && self.alive[t as int]
            && !self.ready.contains(t)
        &&& self.polling.is_none() ==> !self.rewake
        &&& forall|h: usize| #[trigger] self.timers.contains_key(h) ==> h < self.issued
    }

    /// Whether waking `t` puts it into the queue: it has not completed, does
    /// not wait already and is not the task being polled.
    pub open spec fn can_enqueue(self, t: usize) -> bool {
        &&& t < self.alive.len()
        &&& self.alive[t as int]
        &&& !self.ready.contains(t)
        &&& self.polling != Some(t)
    }

    /// The state after task `t` was woken.
    pub open spec fn wake(self, t: usize) -> ExecutorState {
        if self.polling == Some(t) {
            ExecutorState { rewake: true, ..self }
        } else if self.can_enqueue(t) {
            ExecutorState { ready: self.ready.push(t), ..self }
        } else {
            self
        }
    }

    /// The state after the tasks of `fired` were woken, one after the other.
    pub open spec fn wake_all(self, fired: Seq<Expired>) -> ExecutorState
        decreases fired.len(),
    {
        if fired.len() == 0 {
            self
        } else {
            self.wake_all(fired.drop_last()).wake(fired.last().task)
        }
    }

    /// The state after the task `t` was woken, if there is one.
    pub open spec fn wake_opt(self, t: Option<usize>) -> ExecutorState {
        match t {
            Some(t) => self.wake(t),
            None => self,
        }
    }

    /// The state after the tasks of `tasks` were woken, one after the other.
    pub open spec fn wake_each(self, tasks: Seq<usize>) -> ExecutorState
        decreases tasks.len(),
    {
        if tasks.len() == 0 {
            self
        } else {
            self.wake_each(tasks.drop_last()).wake(tasks.last())
        }
    }

    /// The state after a task was spawned; the new task's number is the old
    /// `alive.len()`.
    pub open spec fn spawn(self) -> ExecutorState {
        ExecutorState {
            ready: self.ready.push(self.alive.len() as usize),
            alive: self.alive.push(true),
            watchers: self.watchers.push(None),
            ..self
        }
    }

    /// The state after a timer for `task` at `deadline` was registered; its
    /// handle is the old `issued`.
    pub open spec fn register(self, deadline: Instant, task: usize) -> ExecutorState {
        ExecutorState {
            timers: self.timers.insert(self.issued as usize, Timer { deadline, task }),
            issued: self.issued + 1,
            ..self
        }
    }

    /// The state after the timer `handle` was cancelled.
    pub open spec fn cancel(self, handle: usize) -> ExecutorState {
        ExecutorState { timers: self.timers.remove(handle), ..self }
    }

    /// Whether nothing can be polled: no task waits and none is being polled.
    pub open spec fn idle(self) -> bool {
        self.ready.len() == 0 && self.polling.is_none()
    }

    /// The state after the clock was moved to `now` and every timer due then
    /// has fired.
    pub open spec fn fire(self, now: Instant) -> ExecutorState {
        ExecutorState {
            now,
            timers: self.timers.remove_keys(due(self.timers, now)),
            ..self
        }.wake_all(firing_order(self.timers, now))
    }

    /// What `next_step` returns.
    pub open spec fn step_result(self) -> Result<Step, Error> {
        if self.finished {
            Ok(Step::Finished)
        } else if let Some(t) = self.polling {
            Ok(Step::Poll(t))
        } else if self.ready.len() > 0 {
            Ok(Step::Poll(self.ready[0]))
        } else {
            match earliest_deadline(self.timers) {
                None => Err(Error::ExecutorDeadlock),
                Some(t) => Ok(Step::Advanced(MockClock::advanced(self.now, t))),
            }
        }
    }

    /// The state that `next_step` leaves.
    pub open spec fn after_step(self) -> ExecutorState {
        if self.finished || self.polling.is_some() {
            self
        } else if self.ready.len() > 0 {
            ExecutorState {
                ready: self.ready.skip(1),
                polling: Some(self.ready[0]),
                rewake: false,
                ..self
            }
        } else {
            match earliest_deadline(self.timers) {
                None => self,
                Some(t) => self.fire(MockClock::advanced(self.now, t)),
            }
        }
    }

    /// The state after `n` steps.
    pub open spec fn steps(self, n: nat) -> ExecutorState
        decreases n,
    {
        if n == 0 {
            self
        } else {
            self.steps((n - 1) as nat).after_step()
        }
    }

    /// Whether the first `n` steps only move the clock and step `n + 1` is
    /// the first to say something else.
    pub open spec fn settles_after(self, n: nat) -> bool {
        &&& forall|k: nat| k < n ==> (#[trigger] self.steps(k)).step_result() is Ok && (self.steps(
            k,
        ).step_result()->Ok_0 is Advanced)
        &&& !(self.steps(n).step_result() is Ok && (self.steps(n).step_result()->Ok_0 is Advanced))
    }

    /// What `next_task` makes of the answer of the step that settles: the
    /// task to poll, or nothing once the root task has completed.
    pub open spec fn task_of(r: Result<Step, Error>) -> Result<Option<usize>, Error> {
        match r {
            Ok(Step::Poll(t)) => Ok(Some(t)),
            Ok(_) => Ok(None),
            Err(e) => Err(e),
        }
    }

    /// What a task learns that asks whether `task` has completed: `Ready`
    /// where it has (or was never spawned), else `Pending`.
    pub open spec fn join_result(self, task: usize) -> Poll<()> {
        if task < self.alive.len() && self.alive[task as int] {
            Poll::Pending
        } else {
            Poll::Ready(())
        }
    }

    /// The state after `waiter` asked whether `task` has completed: where it
    /// has not, `waiter` is noted as the one to wake when it does.
    pub open spec fn watch(self, task: usize, waiter: usize) -> ExecutorState {
        if task < self.alive.len() && self.alive[task as int] {
            ExecutorState { watchers: self.watchers.update(task as int, Some(waiter)), ..self }
        } else {
            self
        }
    }

    /// The state after the task being polled has told how its poll ended: a
    /// task that completed is dead from then on, and the task that waited
    /// for its completion is woken.
    pub open spec fn poll_done(self, completed: bool) -> ExecutorState {
        match self.polling {
            None => self,
            Some(t) => if completed {
                ExecutorState {
                    alive: self.alive.update(t as int, false),
                    watchers: self.watchers.update(t as int, None),
                    polling: None,
                    rewake: false,
                    finished: self.finished || t == ROOT_TASK,
                    ..self
                }.wake_opt(self.watchers[t as int])
            } else if self.rewake {
                ExecutorState { ready: self.ready.push(t), polling: None, rewake: false, ..self }
            } else {
                ExecutorState { polling: None, ..self }
            },
        }
    }
}

/// What a sequence holds after one more element was put behind it.
proof fn lemma_push_contains(s: Seq<usize>, t: usize)
    ensures
        forall|x: usize| #[trigger] s.push(t).contains(x) <==> (s.contains(x) || x == t),
{
    assert forall|x: usize| #[trigger] s.push(t).contains(x) <==> (s.contains(x) || x == t) by {
        if s.contains(x) {
            let i = choose|i: int| 0 <= i < s.len() && s[i] == x;
            assert(s.push(t)[i] == x);
        }
        if x == t {
            assert(s.push(t)[s.len() as int] == x);
        }
        if s.push(t).contains(x) {
            let i = choose|i: int| 0 <= i < s.push(t).len() && s.push(t)[i] == x;
            if i < s.len() {
                assert(s[i] == x);
            }
        }
    }
}

/// What a sequence without repetitions holds after its head was taken off.
proof fn lemma_skip_contains(s: Seq<usize>)
    requires
        s.len() > 0,
        s.no_duplicates(),
    ensures
        forall|x: usize| #[trigger] s.skip(1).contains(x) <==> (s.contains(x) && x != s[0]),
        s.skip(1).no_duplicates(),
{
    assert forall|x: usize| #[trigger] s.skip(1).contains(x) <==> (s.contains(x) && x != s[0]) by {
        if s.skip(1).contains(x) {
            let i = choose|i: int| 0 <= i < s.skip(1).len() && s.skip(1)[i] == x;
            assert(s[i + 1] == x);
        }
        if s.contains(x) && x != s[0] {
            let i = choose|i: int| 0 <= i < s.len() && s[i] == x;
            assert(s.skip(1)[i - 1] == x);
        }
    }
    assert forall|i: int, j: int|
        0 <= i < s.skip(1).len() && 0 <= j < s.skip(1).len() && i != j implies s.skip(1)[i]
        != s.skip(1)[j] by {
        assert(s.skip(1)[i] == s[i + 1] && s.skip(1)[j] == s[j + 1]);
    }
}

#[derive(Clone, Copy, Debug)]
struct TaskSlot {
    alive: bool,
    queued: bool,
    watcher: Option<usize>,
}

/// The executor, with the clock and the timer wheel that it drives.
#[derive(Debug)]
pub struct Executor {
    clock: MockClock,
    timers: TimerWheel,
    ready: VecDeque<usize>,
    tasks: Vec<TaskSlot>,
    polling: Option<usize>,
    rewake: bool,
    finished: bool,
}

impl View for Executor {
    type V = ExecutorState;

    closed spec fn view(&self) -> ExecutorState {
        ExecutorState {
            now: self.clock.current,
            timers: self.timers.pending(),
            issued: self.timers.issued(),
            ready: self.ready@,
            alive: Seq::new(self.tasks@.len(), |i: int| self.tasks@[i].alive),
            watchers: Seq::new(self.tasks@.len(), |i: int| self.tasks@[i].watcher),
            polling: self.polling,
            rewake: self.rewake,
            finished: self.finished,
        }
    }
}

impl Executor {
    /// The executor's invariant: the timer wheel is well formed, the state
    /// satisfies `ExecutorState::inv`, and the executor's own bookkeeping
    /// agrees with the queue.
    pub closed spec fn wf(&self) -> bool {
        &&& self.timers.wf()
        &&& self@.inv()
        &&& forall|t: usize|
            t < self.tasks@.len() ==> ((#[trigger] self.tasks@[t as int]).queued
                <==> self.ready@.contains(t))
    }

    /// How many timers wait in the wheel, tombstones included: a bound on
    /// the number of steps that can still move the clock.
    pub closed spec fn timer_backlog(&self) -> nat {
        self.timers.backlog()
    }

    /// A well-formed executor is in a state that satisfies the invariant.
    pub proof fn lemma_wf_inv(&self)
        requires
            self.wf(),
        ensures
            self@.inv(),
    {
    }

    /// A fresh executor.
    pub fn new() -> (e: Executor)
        ensures
            e.wf(),
            e@ == ExecutorState::initial(),
    {
        let mut ready: VecDeque<usize> = VecDeque::new();
        ready.push_back(ROOT_TASK);
        let mut tasks: Vec<TaskSlot> = Vec::new();
        tasks.push(TaskSlot { alive: true, queued: true, watcher: None });
        let e = Executor {
            clock: MockClock::new(),
            timers: TimerWheel::new(),
            ready,
            tasks,
            polling: None,
            rewake: false,
            finished: false,
        };
        proof {
            assert(e@.ready =~= seq![ROOT_TASK]);
            assert(e@.alive =~= seq![true]);
            assert(e@.watchers =~= seq![None::<usize>]);
            assert(e@ =~= ExecutorState::initial());
            assert(e.ready@.contains(0usize)) by {
                assert(e.ready@[0] == 0usize);
            }
        }
        e
    }

    /// The clock's reading.
    pub fn now(&self) -> (t: Instant)
        ensures
            t == self@.now,
    {
        self.clock.now()
    }

    /// Whether the root task has completed.
    pub fn is_finished(&self) -> (b: bool)
        ensures
            b == self@.finished,
    {
        self.finished
    }

    /// How many tasks were ever spawned, the root task included.
    pub fn task_count(&self) -> (n: usize)
        ensures
            n == self@.alive.len(),
    {
        self.tasks.len()
    }

    /// How many tasks wait to be polled.
    pub fn ready_len(&self) -> (n: usize)
        ensures
            n == self@.ready.len(),
    {
        self.ready.len()
    }

    /// Whether `task` was spawned and has not completed.
    pub fn is_alive(&self, task: usize) -> (b: bool)
        ensures
            b == (task < self@.alive.len() && self@.alive[task as int]),
    {
        task < self.tasks.len() && self.tasks[task].alive
    }

    /// The task that is being polled, if one is.
    pub fn polling(&self) -> (t: Option<usize>)
        ensures
            t == self@.polling,
    {
        self.polling
    }

    /// The earliest pending deadline, if a timer is pending.
    pub fn next_deadline(&self) -> (r: Option<Instant>)
        requires
            self.wf(),
        ensures
            r == earliest_deadline(self@.timers),
    {
        self.timers.peek_earliest()
    }

    /// Spawns a task and returns its number. The task is put at the end of
    /// the queue. Fails once the root task has completed.
    pub fn spawn(&mut self) -> (r: Result<usize, Error>)
        requires
            old(self).wf(),
        ensures
            final(self).wf(),
            old(self)@.finished ==> r == Err::<usize, Error>(Error::SpawnAfterShutdown)
                && final(self)@ == old(self)@,
            !old(self)@.finished ==> r == Ok::<usize, Error>(old(self)@.alive.len() as usize)
                && final(self)@ == old(self)@.spawn(),
    {
        if self.finished {
            return Err(Error::SpawnAfterShutdown);
        }
        let id: usize = self.tasks.len();
        self.tasks.push(TaskSlot { alive: true, queued: true, watcher: None });
        self.ready.push_back(id);
        proof {
            let s0 = old(self)@;
            assert(self.tasks.len() <= usize::MAX);
            assert(self@.alive =~= s0.alive.push(true));
            assert(self@.watchers =~= s0.watchers.push(None));
            assert(self@ =~= s0.spawn());
            assert(!old(self).ready@.contains(id)) by {
                if old(self).ready@.contains(id) {
                    let i = choose|i: int|
                        0 <= i < old(self).ready@.len() && old(self).ready@[i] == id;
                    assert(s0.ready[i] < s0.alive.len());
                }
            }
            lemma_push_contains(old(self).ready@, id);
            assert forall|t: usize| t < self.tasks@.len() implies ((
            #[trigger] self.tasks@[t as int]).queued <==> self.ready@.contains(t)) by {
                if t < id {
                    assert(old(self).tasks@[t as int].queued <==> old(self).ready@.contains(t));
                }
            }
            assert forall|i: int| 0 <= i < self@.ready.len() implies (#[trigger] self@.ready[i])
                < self@.alive.len() && self@.alive[self@.ready[i] as int] by {
                if i < s0.ready.len() {
                    assert(self@.ready[i] == s0.ready[i]);
                }
            }
        }
        Ok(id)
    }

    /// Wakes `task`: it is put at the end of the queue unless it has
    /// completed, waits there already or is the task being polled. The task
    /// being polled is noted as woken instead, and queued when its poll ends
    /// without completing it.
    pub fn wake(&mut self, task: usize)
        requires
            old(self).wf(),
        ensures
            final(self).wf(),
            final(self)@ == old(self)@.wake(task),
            final(self).timer_backlog() == old(self).timer_backlog(),
    {
        if task >= self.tasks.len() {
            return ;
        }
        if self.polling == Some(task) {
            self.rewake = true;
            assert(self@ =~= old(self)@.wake(task));
            return ;
        }
        let slot = self.tasks[task];
        if slot.alive && !slot.queued {
            self.tasks[task].alive = true;
            self.tasks[task].queued = true;
            self.ready.push_back(task);
            proof {
                let s0 = old(self)@;
                assert(self@.alive =~= s0.alive);
                assert(self@.watchers =~= s0.watchers);
                assert(self@ =~= s0.wake(task));
                lemma_push_contains(old(self).ready@, task);
                assert forall|t: usize| t < self.tasks@.len() implies ((
                #[trigger] self.tasks@[t as int]).queued <==> self.ready@.contains(t)) by {
                    if t != task {
                        assert(old(self).tasks@[t as int].queued <==> old(self).ready@.contains(t));
                    }
                }
                assert forall|i: int| 0 <= i < self@.ready.len() implies (
                #[trigger] self@.ready[i]) < self@.alive.len()
                    && self@.alive[self@.ready[i] as int] by {
                    if i < s0.ready.len() {
                        assert(self@.ready[i] == s0.ready[i]);
                    }
                }
            }
        } else {
            proof {
                assert(old(self).tasks@[task as int].queued <==> old(self).ready@.contains(task));
            }
        }
    }

    /// Asks on behalf of `waiter` whether `task` has completed. Where it has
    /// not, the answer is `Pending`, and `waiter` is woken when it does; a
    /// task has one such waiter, the last that asked.
    pub fn poll_join(&mut self, task: usize, waiter: usize) -> (r: Poll<()>)
        requires
            old(self).wf(),
        ensures
            final(self).wf(),
            r == old(self)@.join_result(task),
            final(self)@ == old(self)@.watch(task, waiter),
    {
        if task < self.tasks.len() && self.tasks[task].alive {
            self.tasks[task].watcher = Some(waiter);
            proof {
                let s0 = old(self)@;
                assert(self@.alive =~= s0.alive);
                assert(self@.watchers =~= s0.watchers.update(task as int, Some(waiter)));
                assert(self@ =~= s0.watch(task, waiter));
                assert forall|x: usize| x < self.tasks@.len() implies ((
                #[trigger] self.tasks@[x as int]).queued <==> self.ready@.contains(x)) by {
                    assert(old(self).tasks@[x as int].queued <==> old(self).ready@.contains(x));
                }
            }
            Poll::Pending
        } else {
            Poll::Ready(())
        }
    }

    /// Registers a timer that wakes `task` at `deadline`, and returns its
    /// handle.
    pub fn register_timer(&mut self, deadline: Instant, task: usize) -> (handle: usize)
        requires
            old(self).wf(),
        ensures
            final(self).wf(),
            handle == old(self)@.issued,
            final(self)@ == old(self)@.register(deadline, task),
    {
        let handle = self.timers.insert(deadline, task);
        proof {
            assert(self@ =~= old(self)@.register(deadline, task));
        }
        handle
    }

    /// Cancels a timer. Returns whether it was pending.
    pub fn cancel_timer(&mut self, handle: usize) -> (was_pending: bool)
        requires
            old(self).wf(),
        ensures
            final(self).wf(),
            was_pending == old(self)@.timers.contains_key(handle),
            final(self)@ == old(self)@.cancel(handle),
    {
        let was_pending = self.timers.cancel(handle);
        proof {
            assert(self@ =~= old(self)@.cancel(handle));
        }
        was_pending
    }

    /// Wakes `task`, if there is one.
    pub fn wake_opt(&mut self, task: Option<usize>)
        requires
            old(self).wf(),
        ensures
            final(self).wf(),
            final(self)@ == old(self)@.wake_opt(task),
    {
        match task {
            Some(t) => self.wake(t),
            None => {},
        }
    }

    /// Wakes the tasks of `tasks`, one after the other.
    pub fn wake_each(&mut self, tasks: &Vec<usize>)
        requires
            old(self).wf(),
        ensures
            final(self).wf(),
            final(self)@ == old(self)@.wake_each(tasks@),
    {
        let mut i: usize = 0;
        while i < tasks.len()
            invariant
                i <= tasks.len(),
                self.wf(),
                self@ == old(self)@.wake_each(tasks@.take(i as int)),
            decreases tasks.len() - i,
        {
            self.wake(tasks[i]);
            proof {
                let next = tasks@.take(i + 1);
                assert(next.drop_last() =~= tasks@.take(i as int));
                assert(next.last() == tasks@[i as int]);
            }
            i = i + 1;
        }
        proof {
            assert(tasks@.take(i as int) =~= tasks@);
        }
    }

    fn wake_all(&mut self, fired: &Vec<Expired>)
        requires
            old(self).wf(),
        ensures
            final(self).wf(),
            final(self)@ == old(self)@.wake_all(fired@),
            final(self).timer_backlog() == old(self).timer_backlog(),
    {
        let mut i: usize = 0;
        while i < fired.len()
            invariant
                i <= fired.len(),
                self.wf(),
                self.timer_backlog() == old(self).timer_backlog(),
                self@ == old(self)@.wake_all(fired@.take(i as int)),
            decreases fired.len() - i,
        {
            self.wake(fired[i].task);
            proof {
                let next = fired@.take(i + 1);
                assert(next.drop_last() =~= fired@.take(i as int));
                assert(next.last() == fired@[i as int]);
            }
            i = i + 1;
        }
        proof {
            assert(fired@.take(i as int) =~= fired@);
        }
    }

    /// Decides what happens next.
    ///
    /// Once the root task has completed, the answer is `Finished`. While a
    /// task is being polled, that task is named again. Otherwise the task at
    /// the head of the queue is taken out and named. Where no task waits, the
    /// clock is moved to the earliest pending deadline (never back), the
    /// timers due then fire in their order and wake their tasks, and the
    /// answer is `Advanced`; where no timer is pending either, the run is
    /// deadlocked.
    pub fn next_step(&mut self) -> (r: Result<Step, Error>)
        requires
            old(self).wf(),
        ensures
            final(self).wf(),
            r == old(self)@.step_result(),
            final(self)@ == old(self)@.after_step(),
            final(self).timer_backlog() <= old(self).timer_backlog(),
            r matches Ok(Step::Advanced(_)) ==> final(self).timer_backlog() < old(
                self,
            ).timer_backlog(),
    {
        if self.finished {
            return Ok(Step::Finished);
        }
        if let Some(t) = self.polling {
            return Ok(Step::Poll(t));
        }
        match self.ready.pop_front() {
            Some(t) => {
                assert(old(self).ready@[0] == t);
                assert(old(self).ready@.contains(t));
                self.tasks[t].alive = true;
                self.tasks[t].queued = false;
                self.polling = Some(t);
                self.rewake = false;
                proof {
                    let s0 = old(self)@;
                    assert(self@.ready =~= s0.ready.skip(1));
                    assert(self@.alive =~= s0.alive);
                    assert(self@.watchers =~= s0.watchers);
                    assert(self@ =~= s0.after_step());
                    lemma_skip_contains(s0.ready);
                    assert forall|i: int| 0 <= i < self@.ready.len() implies (
                    #[trigger] self@.ready[i]) < self@.alive.len()
                        && self@.alive[self@.ready[i] as int] by {
                        assert(self@.ready[i] == s0.ready[i + 1]);
                    }
                    assert forall|x: usize| x < self.tasks@.len() implies ((
                    #[trigger] self.tasks@[x as int]).queued <==> self.ready@.contains(x)) by {
                        if x != t {
                            assert(old(self).tasks@[x as int].queued <==> old(self).ready@.contains(x));
                        }
                    }
                }
                Ok(Step::Poll(t))
            },
            None => {
                match self.timers.peek_earliest() {
                    None => Err(Error::ExecutorDeadlock),
                    Some(earliest) => {
                        self.clock.advance_to(earliest);
                        let now = self.clock.now();
                        let fired = self.timers.pop_ready(now);
                        proof {
                            let s0 = old(self)@;
                            let h = choose|h: usize| #[trigger]
                                s0.timers.contains_key(h) && s0.timers[h].deadline == earliest;
                            let k = choose|k: int|
                                0 <= k < fired@.len() && (#[trigger] fired@[k]).handle == h;
                            let mid = ExecutorState {
                                now,
                                timers: s0.timers.remove_keys(due(s0.timers, now)),
                                ..s0
                            };
                            assert(self@.alive =~= s0.alive);
                            assert(self@.watchers =~= s0.watchers);
                            assert(self@ =~= mid);
                            assert forall|h: usize| #[trigger]
                                self@.timers.contains_key(h) implies h < self@.issued by {
                                assert(s0.timers.contains_key(h));
                            }
                        }
                        self.wake_all(&fired);
                        Ok(Step::Advanced(now))
                    },
                }
            },
        }
    }

    /// Names the task to poll next, moving the clock as often as it takes:
    /// takes steps until one of them says something else than `Advanced`.
    /// The answer is the task to poll, or nothing once the root task has
    /// completed, or the deadlock.
    pub fn next_task(&mut self) -> (r: Result<Option<usize>, Error>)
        requires
            old(self).wf(),
        ensures
            final(self).wf(),
            exists|n: nat|
                old(self)@.settles_after(n) && r == ExecutorState::task_of(
                    (#[trigger] old(self)@.steps(n)).step_result(),
                ) && final(self)@ == old(self)@.steps(n + 1),
    {
        let ghost n: nat = 0;
        loop
            invariant
                self.wf(),
                self@ == old(self)@.steps(n),
                forall|k: nat|
                    k < n ==> (#[trigger] old(self)@.steps(k)).step_result() is Ok && (old(
                        self,
                    )@.steps(k).step_result()->Ok_0 is Advanced),
            decreases self.timer_backlog(),
        {
            let ghost before = self@;
            let step = self.next_step();
            proof {
                assert(old(self)@.steps(n + 1) == before.after_step());
            }
            match step {
                Ok(Step::Advanced(_)) => {
                    proof {
                        n = n + 1;
                    }
                },
                Ok(Step::Poll(t)) => {
                    return Ok(Some(t));
                },
                Ok(Step::Finished) => {
                    return Ok(None);
                },
                Err(e) => {
                    return Err(e);
                },
            }
        }
    }

    /// Reports how the poll of the task named by `next_step` ended. A task
    /// that completed is never polled again; when it is the root task, the
    /// run is over. A task that did not complete and was woken during its
    /// poll goes to the end of the queue. Without a task being polled,
    /// nothing happens.
    pub fn poll_done(&mut self, completed: bool)
        requires
            old(self).wf(),
        ensures
            final(self).wf(),
            final(self)@ == old(self)@.poll_done(completed),
    {
        match self.polling {
            None => {},
            Some(t) => {
                let rewake = self.rewake;
                self.polling = None;
                self.rewake = false;
                if completed {
                    let watcher = self.tasks[t].watcher;
                    self.tasks[t].alive = false;
                    self.tasks[t].watcher = None;
                    if t == ROOT_TASK {
                        self.finished = true;
                    }
                    proof {
                        let s0 = old(self)@;
                        let mid = ExecutorState {
                            alive: s0.alive.update(t as int, false),
                            watchers: s0.watchers.update(t as int, None),
                            polling: None,
                            rewake: false,
                            finished: s0.finished || t == ROOT_TASK,
                            ..s0
                        };
                        assert(self@.alive =~= s0.alive.update(t as int, false));
                        assert(self@.watchers =~= s0.watchers.update(t as int, None));
                        assert(self@ =~= mid);
                        assert(watcher == s0.watchers[t as int]);
                        assert(!old(self).tasks@[t as int].queued);
                        assert forall|x: usize| x < self.tasks@.len() implies ((
                        #[trigger] self.tasks@[x as int]).queued <==> self.ready@.contains(x)) by {
                            assert(old(self).tasks@[x as int].queued <==> old(self).ready@.contains(x));
                        }
                        assert forall|i: int| 0 <= i < self@.ready.len() implies (
                        #[trigger] self@.ready[i]) < self@.alive.len()
                            && self@.alive[self@.ready[i] as int] by {
                            assert(s0.ready[i] < s0.alive.len() && s0.alive[s0.ready[i] as int]);
                            assert(s0.ready.contains(s0.ready[i]));
                        }
                    }
                    self.wake_opt(watcher);
                } else if rewake {
                    self.tasks[t].alive = true;
                    self.tasks[t].queued = true;
                    self.ready.push_back(t);
                    proof {
                        let s0 = old(self)@;
                        assert(self@.alive =~= s0.alive);
                        assert(self@.watchers =~= s0.watchers);
                        assert(self@ =~= s0.poll_done(completed));
                        lemma_push_contains(old(self).ready@, t);
                        assert forall|x: usize| x < self.tasks@.len() implies ((
                        #[trigger] self.tasks@[x as int]).queued <==> self.ready@.contains(x)) by {
                            if x != t {
                                assert(old(self).tasks@[x as int].queued <==> old(
                                    self,
                                ).ready@.contains(x));
                            }
                        }
                        assert forall|i: int| 0 <= i < self@.ready.len() implies (
                        #[trigger] self@.ready[i]) < self@.alive.len()
                            && self@.alive[self@.ready[i] as int] by {
                            if i < s0.ready.len() {
                                assert(self@.ready[i] == s0.ready[i]);
                            }
                        }
                    }
                } else {
                    proof {
                        let s0 = old(self)@;
                        assert(self@.alive =~= s0.alive);
                        assert(self@.watchers =~= s0.watchers);
                        assert(self@ =~= s0.poll_done(completed));
                    }
                }
            },
        }
    }
}

/// Waking a task keeps the invariant and touches nothing but the queue and
/// the note that the polled task was woken.
pub proof fn lemma_wake_keeps_inv(s: ExecutorState, t: usize)
    requires
        s.inv(),
    ensures
        s.wake(t).inv(),
        s.wake(t).now == s.now,
        s.wake(t).timers == s.timers,
        s.wake(t).issued == s.issued,
        s.wake(t).alive == s.alive,
        s.wake(t).watchers == s.watchers,
        s.wake(t).polling == s.polling,
        s.wake(t).finished == s.finished,
        s.polling.is_none() ==> !s.wake(t).rewake,
        forall|x: usize| s.ready.contains(x) ==> #[trigger] s.wake(t).ready.contains(x),
{
    lemma_push_contains(s.ready, t);
    if s.polling != Some(t) && s.can_enqueue(t) {
        let r = s.ready.push(t);
        assert forall|i: int| 0 <= i < r.len() implies (#[trigger] r[i]) < s.alive.len()
            && s.alive[r[i] as int] by {
            if i < s.ready.len() {
                assert(r[i] == s.ready[i]);
            }
        }
        assert forall|i: int, j: int| 0 <= i < r.len() && 0 <= j < r.len() && i != j implies r[i]
            != r[j] by {
            if i < s.ready.len() {
                assert(s.ready.contains(r[i]));
            }
            if j < s.ready.len() {
                assert(s.ready.contains(r[j]));
            }
        }
    }
}

/// Firing a run of timers keeps the invariant and touches nothing but the
/// queue and the note that the polled task was woken.
pub proof fn lemma_wake_all_keeps_inv(s: ExecutorState, fired: Seq<Expired>)
    requires
        s.inv(),
    ensures
        s.wake_all(fired).inv(),
        s.wake_all(fired).now == s.now,
        s.wake_all(fired).timers == s.timers,
        s.wake_all(fired).issued == s.issued,
        s.wake_all(fired).alive == s.alive,
        s.wake_all(fired).watchers == s.watchers,
        s.wake_all(fired).polling == s.polling,
        s.wake_all(fired).finished == s.finished,
        s.polling.is_none() ==> !s.wake_all(fired).rewake,
    decreases fired.len(),
{
    if fired.len() > 0 {
        lemma_wake_all_keeps_inv(s, fired.drop_last());
        lemma_wake_keeps_inv(s.wake_all(fired.drop_last()), fired.last().task);
    }
}

/// Firing the timers that are due keeps the invariant, sets the clock, takes
/// those timers out of the wheel and touches nothing else but the queue.
pub proof fn lemma_fire_keeps_inv(s: ExecutorState, now: Instant)
    requires
        s.inv(),
    ensures
        s.fire(now).inv(),
        s.fire(now).now == now,
        s.fire(now).timers == s.timers.remove_keys(due(s.timers, now)),
        s.fire(now).issued == s.issued,
        s.fire(now).alive == s.alive,
        s.fire(now).watchers == s.watchers,
        s.fire(now).polling == s.polling,
        s.fire(now).finished == s.finished,
{
    let mid = ExecutorState { now, timers: s.timers.remove_keys(due(s.timers, now)), ..s };
    assert forall|h: usize| #[trigger] mid.timers.contains_key(h) implies h < mid.issued by {
        assert(s.timers.contains_key(h));
    }
    lemma_wake_all_keeps_inv(mid, firing_order(s.timers, now));
}

/// A timer that fires wakes its task: where no task is being polled, every
/// task of `fired` that has not completed waits in the queue afterwards.
pub proof fn lemma_wake_all_wakes(s: ExecutorState, fired: Seq<Expired>, k: int)
    requires
        s.inv(),
        s.polling.is_none(),
        0 <= k < fired.len(),
        fired[k].task < s.alive.len(),
        s.alive[fired[k].task as int],
    ensures
        s.wake_all(fired).ready.contains(fired[k].task),
    decreases fired.len(),
{
    let before = s.wake_all(fired.drop_last());
    lemma_wake_all_keeps_inv(s, fired.drop_last());
    lemma_wake_keeps_inv(before, fired.last().task);
    if k < fired.len() - 1 {
        lemma_wake_all_wakes(s, fired.drop_last(), k);
        assert(fired.drop_last()[k] == fired[k]);
    } else {
        let t = fired[k].task;
        lemma_push_contains(before.ready, t);
    }
}

/// Waking a run of tasks keeps the invariant and leaves the clock and the
/// timers alone.
pub proof fn lemma_wake_each_keeps_inv(s: ExecutorState, tasks: Seq<usize>)
    requires
        s.inv(),
    ensures
        s.wake_each(tasks).inv(),
        s.wake_each(tasks).now == s.now,
        s.wake_each(tasks).timers == s.timers,
        s.wake_each(tasks).issued == s.issued,
        s.wake_each(tasks).alive == s.alive,
        s.wake_each(tasks).watchers == s.watchers,
        s.wake_each(tasks).polling == s.polling,
        s.wake_each(tasks).finished == s.finished,
    decreases tasks.len(),
{
    if tasks.len() > 0 {
        lemma_wake_each_keeps_inv(s, tasks.drop_last());
        lemma_wake_keeps_inv(s.wake_each(tasks.drop_last()), tasks.last());
    }
}

/// Spawning keeps the invariant, as long as the tasks can still be counted.
pub proof fn lemma_spawn_keeps_inv(s: ExecutorState)
    requires
        s.inv(),
        s.alive.len() < usize::MAX,
    ensures
        s.spawn().inv(),
{
    let id = s.alive.len() as usize;
    let r = s.ready.push(id);
    lemma_push_contains(s.ready, id);
    assert(!s.ready.contains(id)) by {
        if s.ready.contains(id) {
            let i = choose|i: int| 0 <= i < s.ready.len() && s.ready[i] == id;
            assert(s.ready[i] < s.alive.len());
        }
    }
    assert forall|i: int| 0 <= i < r.len() implies (#[trigger] r[i]) < s.spawn().alive.len()
        && s.spawn().alive[r[i] as int] by {
        if i < s.ready.len() {
            assert(r[i] == s.ready[i]);
        }
    }
    assert forall|i: int, j: int| 0 <= i < r.len() && 0 <= j < r.len() && i != j implies r[i]
        != r[j] by {
        if i < s.ready.len() {
            assert(s.ready.contains(r[i]));
        }
        if j < s.ready.len() {
            assert(s.ready.contains(r[j]));
        }
    }
    if s.polling.is_some() {
        assert(s.polling.unwrap() != id);
    }
}

/// Registering and cancelling timers and asking for a task's completion keep
/// the invariant.
pub proof fn lemma_timer_ops_keep_inv(
    s: ExecutorState,
    deadline: Instant,
    task: usize,
    handle: usize,
    waiter: usize,
)
    requires
        s.inv(),
    ensures
        s.register(deadline, task).inv(),
        s.cancel(handle).inv(),
        s.watch(task, waiter).inv(),
{
    let r = s.register(deadline, task);
    assert forall|h: usize| #[trigger] r.timers.contains_key(h) implies h < r.issued by {
        if h != s.issued as usize {
            assert(s.timers.contains_key(h));
        }
    }
    let c = s.cancel(handle);
    assert forall|h: usize| #[trigger] c.timers.contains_key(h) implies h < c.issued by {
        assert(s.timers.contains_key(h));
    }
}

/// The end of a poll keeps the invariant.
pub proof fn lemma_poll_done_keeps_inv(s: ExecutorState, completed: bool)
    requires
        s.inv(),
    ensures
        s.poll_done(completed).inv(),
{
    match s.polling {
        None => {},
        Some(t) => {
            if completed {
                let mid = ExecutorState {
                    alive: s.alive.update(t as int, false),
                    watchers: s.watchers.update(t as int, None),
                    polling: None,
                    rewake: false,
                    finished: s.finished || t == ROOT_TASK,
                    ..s
                };
                assert forall|i: int| 0 <= i < mid.ready.len() implies (#[trigger] mid.ready[i])
                    < mid.alive.len() && mid.alive[mid.ready[i] as int] by {
                    assert(s.ready[i] < s.alive.len() && s.alive[s.ready[i] as int]);
                    assert(s.ready.contains(s.ready[i]));
                }
                assert(mid.inv());
                match s.watchers[t as int] {
                    Some(w) => {
                        lemma_wake_keeps_inv(mid, w);
                    },
                    None => {},
                }
            } else if s.rewake {
                let r = s.ready.push(t);
                lemma_push_contains(s.ready, t);
                assert forall|i: int| 0 <= i < r.len() implies (#[trigger] r[i]) < s.alive.len()
                    && s.alive[r[i] as int] by {
                    if i < s.ready.len() {
                        assert(r[i] == s.ready[i]);
                    }
                }
                assert forall|i: int, j: int|
                    0 <= i < r.len() && 0 <= j < r.len() && i != j implies r[i] != r[j] by {
                    if i < s.ready.len() {
                        assert(s.ready.contains(r[i]));
                    }
                    if j < s.ready.len() {
                        assert(s.ready.contains(r[j]));
                    }
                }
            }
        },
    }
}

/// One step of the executor keeps the invariant.
pub proof fn lemma_step_keeps_inv(s: ExecutorState)
    requires
        s.inv(),
    ensures
        s.after_step().inv(),
{
    if s.finished || s.polling.is_some() {
    } else if s.ready.len() > 0 {
        lemma_skip_contains(s.ready);
        let r = s.ready.skip(1);
        assert forall|i: int| 0 <= i < r.len() implies (#[trigger] r[i]) < s.alive.len()
            && s.alive[r[i] as int] by {
            assert(r[i] == s.ready[i + 1]);
        }
        assert(s.ready.contains(s.ready[0]));
    } else {
        match earliest_deadline(s.timers) {
            None => {},
            Some(t) => {
                let now = MockClock::advanced(s.now, t);
                lemma_fire_keeps_inv(s, now);
            },
        }
    }
}

/// The clock never goes back: whatever the executor does, the clock reads
/// afterwards what it read before, or more.
pub proof fn lemma_clock_is_monotonic(
    s: ExecutorState,
    task: usize,
    deadline: Instant,
    handle: usize,
    completed: bool,
)
    requires
        s.inv(),
    ensures
        s.after_step().now.nanos >= s.now.nanos,
        s.wake(task).now == s.now,
        s.spawn().now == s.now,
        s.register(deadline, task).now == s.now,
        s.cancel(handle).now == s.now,
        s.poll_done(completed).now == s.now,
{
    lemma_wake_keeps_inv(s, task);
    if !s.finished && s.polling.is_none() && s.ready.len() == 0 {
        match earliest_deadline(s.timers) {
            None => {},
            Some(t) => {
                let now = MockClock::advanced(s.now, t);
                lemma_fire_keeps_inv(s, now);
            },
        }
    }
}

/// Time moves only when nothing can run, and then exactly to the earliest
/// pending deadline: where a step changes the clock, no task was waiting and
/// none was being polled before it, the step is reported as `Advanced`, and
/// the clock then reads the earliest deadline that was pending.
pub proof fn lemma_time_moves_only_when_idle(s: ExecutorState)
    requires
        s.inv(),
    ensures
        s.after_step().now != s.now ==> {
            &&& s.idle()
            &&& !s.finished
            &&& earliest_deadline(s.timers) == Some(s.after_step().now)
            &&& s.step_result() == Ok::<Step, Error>(Step::Advanced(s.after_step().now))
        },
        s.step_result() matches Ok(Step::Advanced(t)) ==> s.idle() && s.after_step().now == t,
{
    if !s.finished && s.polling.is_none() && s.ready.len() == 0 {
        match earliest_deadline(s.timers) {
            None => {},
            Some(t) => {
                let now = MockClock::advanced(s.now, t);
                lemma_fire_keeps_inv(s, now);
            },
        }
    }
}

/// The clock never jumps over a pending deadline: where a step moves the
/// clock, no timer that was pending has a deadline before the new reading.
pub proof fn lemma_clock_stops_at_every_deadline(s: ExecutorState, h: usize)
    requires
        s.inv(),
        s.timers.contains_key(h),
        s.after_step().now != s.now,
    ensures
        s.after_step().now.nanos <= s.timers[h].deadline.nanos,
{
    lemma_time_moves_only_when_idle(s);
    lemma_earliest_exists(s.timers, h);
    assert(is_earliest(s.timers, s.after_step().now));
}

/// A task that waits is polled before time moves: as long as it has not been
/// handed out for polling it stays in the queue, and while the queue is not
/// empty a step leaves the clock alone.
pub proof fn lemma_wakeup_seen_before_time_moves(s: ExecutorState, t: usize)
    requires
        s.inv(),
        s.ready.contains(t),
    ensures
        s.after_step().now == s.now,
        s.after_step().ready.contains(t) || s.step_result() == Ok::<Step, Error>(Step::Poll(t)),
{
    if s.finished || s.polling.is_some() {
    } else {
        lemma_skip_contains(s.ready);
    }
}

/// A timer fires no earlier than its deadline: a step that takes a timer out
/// of the wheel leaves the clock at that timer's deadline or later.
pub proof fn lemma_timer_fires_at_or_after_deadline(s: ExecutorState, h: usize)
    requires
        s.inv(),
        s.timers.contains_key(h),
        !s.after_step().timers.contains_key(h),
    ensures
        s.after_step().now.nanos >= s.timers[h].deadline.nanos,
{
    if !s.finished && s.polling.is_none() && s.ready.len() == 0 {
        match earliest_deadline(s.timers) {
            None => {},
            Some(t) => {
                let now = MockClock::advanced(s.now, t);
                lemma_fire_keeps_inv(s, now);
                assert(due(s.timers, now).contains(h));
            },
        }
    }
}

} // verus!
