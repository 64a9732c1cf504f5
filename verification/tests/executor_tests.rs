use simulation::executor::{Executor, Step, ROOT_TASK};
use simulation::time::Instant;
use simulation::{Error, Poll};

fn at(nanos: u64) -> Instant {
    Instant::from_nanos(nanos)
}

#[test]
fn fresh_executor_polls_the_root_task_first() {
    let mut e = Executor::new();
    assert_eq!(e.now(), Instant::epoch());
    assert_eq!(e.task_count(), 1);
    assert_eq!(e.ready_len(), 1);
    assert!(!e.is_finished());
    assert_eq!(e.next_step(), Ok(Step::Poll(ROOT_TASK)));
    assert_eq!(e.polling(), Some(ROOT_TASK));
}

#[test]
fn the_polled_task_is_named_again_until_it_answers() {
    let mut e = Executor::new();
    assert_eq!(e.next_step(), Ok(Step::Poll(0)));
    assert_eq!(e.next_step(), Ok(Step::Poll(0)));
    e.poll_done(false);
    assert_eq!(e.polling(), None);
}

#[test]
fn run_ends_when_the_root_task_completes() {
    let mut e = Executor::new();
    let other = e.spawn().unwrap();
    assert_eq!(other, 1);
    assert_eq!(e.next_step(), Ok(Step::Poll(0)));
    e.poll_done(true);
    assert!(e.is_finished());
    assert!(!e.is_alive(0));
    assert!(e.is_alive(1));
    assert_eq!(e.next_step(), Ok(Step::Finished));
    assert_eq!(e.next_step(), Ok(Step::Finished));
}

#[test]
fn spawn_after_shutdown_fails() {
    let mut e = Executor::new();
    e.next_step().unwrap();
    e.poll_done(true);
    assert_eq!(e.spawn(), Err(Error::SpawnAfterShutdown));
    assert_eq!(e.task_count(), 1);
}

#[test]
fn quiescence_without_timers_is_a_deadlock() {
    let mut e = Executor::new();
    assert_eq!(e.next_step(), Ok(Step::Poll(0)));
    e.poll_done(false);
    assert_eq!(e.next_step(), Err(Error::ExecutorDeadlock));
    assert_eq!(e.next_step(), Err(Error::ExecutorDeadlock));
    assert_eq!(e.now(), Instant::epoch());
}

#[test]
fn tasks_are_polled_in_the_order_in_which_they_became_ready() {
    let mut e = Executor::new();
    let a = e.spawn().unwrap();
    let b = e.spawn().unwrap();
    let c = e.spawn().unwrap();
    let mut order = Vec::new();
    for _ in 0..4 {
        match e.next_step().unwrap() {
            Step::Poll(t) => {
                order.push(t);
                e.poll_done(false);
            }
            other => panic!("unexpected step {:?}", other),
        }
    }
    assert_eq!(order, vec![0, a, b, c]);
    e.wake(c);
    e.wake(a);
    e.wake(c);
    e.wake(0);
    e.wake(a);
    assert_eq!(e.ready_len(), 3);
    let mut order = Vec::new();
    for _ in 0..3 {
        match e.next_step().unwrap() {
            Step::Poll(t) => {
                order.push(t);
                e.poll_done(false);
            }
            other => panic!("unexpected step {:?}", other),
        }
    }
    assert_eq!(order, vec![c, a, 0]);
}

#[test]
fn a_task_spawned_during_a_pass_is_polled_after_those_that_wait() {
    let mut e = Executor::new();
    let a = e.spawn().unwrap();
    assert_eq!(e.next_step(), Ok(Step::Poll(0)));
    let late = e.spawn().unwrap();
    e.poll_done(false);
    assert_eq!(e.next_step(), Ok(Step::Poll(a)));
    e.poll_done(false);
    assert_eq!(e.next_step(), Ok(Step::Poll(late)));
}

#[test]
fn a_task_woken_during_its_own_poll_runs_again_later() {
    let mut e = Executor::new();
    let a = e.spawn().unwrap();
    assert_eq!(e.next_step(), Ok(Step::Poll(0)));
    e.wake(0);
    assert_eq!(e.ready_len(), 1);
    e.poll_done(false);
    assert_eq!(e.ready_len(), 2);
    assert_eq!(e.next_step(), Ok(Step::Poll(a)));
    e.poll_done(false);
    assert_eq!(e.next_step(), Ok(Step::Poll(0)));
}

#[test]
fn waking_dead_or_unknown_tasks_does_nothing() {
    let mut e = Executor::new();
    let a = e.spawn().unwrap();
    e.next_step().unwrap();
    e.poll_done(false);
    assert_eq!(e.next_step(), Ok(Step::Poll(a)));
    e.poll_done(true);
    e.wake(a);
    e.wake(55);
    assert_eq!(e.ready_len(), 0);
    assert!(!e.is_alive(a));
    assert!(!e.is_alive(55));
}

#[test]
fn time_moves_to_the_earliest_deadline_when_nothing_is_ready() {
    let mut e = Executor::new();
    let a = e.spawn().unwrap();
    e.register_timer(at(500), 0);
    e.register_timer(at(200), a);
    assert_eq!(e.next_deadline(), Some(at(200)));
    assert_eq!(e.next_step(), Ok(Step::Poll(0)));
    assert_eq!(e.now(), at(0));
    e.poll_done(false);
    assert_eq!(e.next_step(), Ok(Step::Poll(a)));
    assert_eq!(e.now(), at(0));
    e.poll_done(false);
    assert_eq!(e.next_step(), Ok(Step::Advanced(at(200))));
    assert_eq!(e.now(), at(200));
    assert_eq!(e.next_step(), Ok(Step::Poll(a)));
    e.poll_done(false);
    assert_eq!(e.next_step(), Ok(Step::Advanced(at(500))));
    assert_eq!(e.next_step(), Ok(Step::Poll(0)));
    e.poll_done(false);
    assert_eq!(e.next_step(), Err(Error::ExecutorDeadlock));
    assert_eq!(e.now(), at(500));
}

#[test]
fn timers_with_one_deadline_wake_in_registration_order() {
    let mut e = Executor::new();
    let a = e.spawn().unwrap();
    let b = e.spawn().unwrap();
    for _ in 0..3 {
        e.next_step().unwrap();
        e.poll_done(false);
    }
    e.register_timer(at(10), b);
    e.register_timer(at(10), 0);
    e.register_timer(at(10), a);
    e.register_timer(at(10), b);
    assert_eq!(e.next_step(), Ok(Step::Advanced(at(10))));
    assert_eq!(e.ready_len(), 3);
    assert_eq!(e.next_step(), Ok(Step::Poll(b)));
    e.poll_done(false);
    assert_eq!(e.next_step(), Ok(Step::Poll(0)));
    e.poll_done(false);
    assert_eq!(e.next_step(), Ok(Step::Poll(a)));
}

#[test]
fn a_deadline_in_the_past_fires_without_moving_the_clock() {
    let mut e = Executor::new();
    e.register_timer(at(100), 0);
    e.next_step().unwrap();
    e.poll_done(false);
    assert_eq!(e.next_step(), Ok(Step::Advanced(at(100))));
    e.next_step().unwrap();
    e.register_timer(at(40), 0);
    e.poll_done(false);
    assert_eq!(e.next_step(), Ok(Step::Advanced(at(100))));
    assert_eq!(e.now(), at(100));
    assert_eq!(e.next_step(), Ok(Step::Poll(0)));
}

#[test]
fn cancelled_timer_does_not_move_the_clock() {
    let mut e = Executor::new();
    let h = e.register_timer(at(100), 0);
    assert!(e.cancel_timer(h));
    assert!(!e.cancel_timer(h));
    e.next_step().unwrap();
    e.poll_done(false);
    assert_eq!(e.next_step(), Err(Error::ExecutorDeadlock));
    assert_eq!(e.now(), at(0));
}

#[test]
fn a_timer_of_a_dead_task_moves_the_clock_and_wakes_nobody() {
    let mut e = Executor::new();
    let a = e.spawn().unwrap();
    e.register_timer(at(70), a);
    e.next_step().unwrap();
    e.poll_done(false);
    assert_eq!(e.next_step(), Ok(Step::Poll(a)));
    e.poll_done(true);
    assert_eq!(e.next_step(), Ok(Step::Advanced(at(70))));
    assert_eq!(e.ready_len(), 0);
    assert_eq!(e.next_step(), Err(Error::ExecutorDeadlock));
}

#[test]
fn join_wakes_the_waiter_when_the_task_completes() {
    let mut e = Executor::new();
    let a = e.spawn().unwrap();
    assert_eq!(e.next_step(), Ok(Step::Poll(0)));
    assert_eq!(e.poll_join(a, 0), Poll::Pending);
    e.poll_done(false);
    assert_eq!(e.next_step(), Ok(Step::Poll(a)));
    e.poll_done(true);
    assert_eq!(e.ready_len(), 1);
    assert_eq!(e.next_step(), Ok(Step::Poll(0)));
    assert_eq!(e.poll_join(a, 0), Poll::Ready(()));
    assert_eq!(e.poll_join(99, 0), Poll::Ready(()));
}

#[test]
fn wake_each_and_wake_opt() {
    let mut e = Executor::new();
    let a = e.spawn().unwrap();
    let b = e.spawn().unwrap();
    for _ in 0..3 {
        e.next_step().unwrap();
        e.poll_done(false);
    }
    e.wake_opt(None);
    assert_eq!(e.ready_len(), 0);
    e.wake_each(&vec![b, a, b, 0]);
    e.wake_opt(Some(a));
    assert_eq!(e.ready_len(), 3);
    assert_eq!(e.next_step(), Ok(Step::Poll(b)));
}

#[test]
fn next_task_moves_the_clock_as_often_as_it_takes() {
    let mut e = Executor::new();
    let a = e.spawn().unwrap();
    assert_eq!(e.next_task(), Ok(Some(0)));
    e.poll_done(false);
    assert_eq!(e.next_task(), Ok(Some(a)));
    // Two timers of a task that completes, then one of the root task.
    e.register_timer(at(10), a);
    e.register_timer(at(20), a);
    e.register_timer(at(30), 0);
    e.poll_done(true);
    assert_eq!(e.next_task(), Ok(Some(0)));
    assert_eq!(e.now(), at(30));
    e.poll_done(false);
    assert_eq!(e.next_task(), Err(Error::ExecutorDeadlock));
    assert_eq!(e.now(), at(30));
    e.wake(0);
    assert_eq!(e.next_task(), Ok(Some(0)));
    e.poll_done(true);
    assert_eq!(e.next_task(), Ok(None));
    assert_eq!(e.next_task(), Ok(None));
}
