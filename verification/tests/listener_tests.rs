use simulation::delay::{Delay, Timeout};
use simulation::deterministic::DeterministicRuntime;
use simulation::executor::Step;
use simulation::fault::FaultConfig;
use simulation::net::addr::Address;
use simulation::net::listen::{MemoryListener, DEFAULT_TTL};
use simulation::net::network::Side;
use simulation::rng::Probability;
use simulation::time::{Duration, Instant};
use simulation::{spawn_with_result, Elapsed, Error, IoError, Poll};

fn quiet(seed: u64) -> DeterministicRuntime {
    DeterministicRuntime::with_config(seed, FaultConfig::none(), 16)
}

fn always_delayed(seed: u64) -> DeterministicRuntime {
    let faults = FaultConfig {
        accept_delay_probability: Probability::always(),
        accept_delay_min: Duration::from_millis(100),
        accept_delay_max: Duration::from_millis(10_000),
    };
    DeterministicRuntime::with_config(seed, faults, 16)
}

#[test]
fn new_with_seed_uses_the_standard_faults() {
    let rt = DeterministicRuntime::new_with_seed(1).ok().unwrap();
    assert_eq!(rt.faults, FaultConfig::standard());
    assert_eq!(rt.now(), Instant::epoch());
    assert!(rt.can_inject());
    assert_eq!(rt.rng.state, 1);
}

#[test]
fn listener_reports_its_address_and_ttl() {
    let mut rt = quiet(1);
    let addr = Address::localhost(8080);
    let mut listener = rt.bind(addr).unwrap();
    assert_eq!(listener.id(), 0);
    assert_eq!(listener.local_addr(), Ok(addr));
    assert_eq!(listener.ttl(), Ok(DEFAULT_TTL));
    assert_eq!(listener.ttl(), Ok(u32::MAX));
    assert_eq!(listener.set_ttl(64), Ok(()));
    assert_eq!(listener.ttl(), Ok(64));
    let made = MemoryListener::new(3, addr);
    assert_eq!(made.id(), 3);
    assert_eq!(made.local_addr(), Ok(addr));
}

#[test]
fn bind_twice_fails() {
    let mut rt = quiet(1);
    let addr = Address::localhost(8080);
    assert!(rt.bind(addr).is_ok());
    assert_eq!(rt.bind(addr).err(), Some(IoError::AddressInUse));
}

#[test]
fn refused_connect_is_immediate_and_leaves_the_clock() {
    let mut rt = DeterministicRuntime::new_with_seed(1).ok().unwrap();
    let before = rt.now();
    assert_eq!(
        rt.connect(Address::localhost(9999)).err(),
        Some(IoError::ConnectionRefused)
    );
    assert_eq!(rt.now(), before);
    assert_eq!(rt.rng.state, 1);
}

#[test]
fn accepted_stream_and_client_stream_agree_on_addresses() {
    let mut rt = quiet(3);
    let addr = Address::localhost(8080);
    let mut listener = rt.bind(addr).unwrap();
    let client = rt.connect(addr).unwrap();
    assert_eq!(client.side, Side::Client);
    assert_eq!(client.peer_addr(), Ok(addr));
    match listener.accept(&mut rt, 0) {
        Poll::Ready(Ok((server, peer))) => {
            assert_eq!(server.side, Side::Server);
            assert_eq!(server.conn, client.conn);
            assert_eq!(Ok(peer), client.local_addr());
            assert_eq!(server.peer_addr(), client.local_addr());
            assert_eq!(server.local_addr(), Ok(addr));
        }
        other => panic!("unexpected {:?}", other),
    }
}

#[test]
fn accept_waits_for_a_connection_and_is_woken_by_connect() {
    let mut rt = quiet(3);
    let addr = Address::localhost(8080);
    let server_task = rt.spawn().unwrap();
    assert_eq!(rt.next_step(), Ok(Step::Poll(0)));
    rt.poll_done(false);
    assert_eq!(rt.next_step(), Ok(Step::Poll(server_task)));
    let mut listener = rt.bind(addr).unwrap();
    assert_eq!(listener.poll_accept(&mut rt, server_task), Poll::Pending);
    rt.poll_done(false);
    assert_eq!(rt.executor.ready_len(), 0);
    let client = rt.connect(addr).unwrap();
    assert_eq!(rt.executor.ready_len(), 1);
    assert_eq!(rt.next_step(), Ok(Step::Poll(server_task)));
    match listener.poll_accept(&mut rt, server_task) {
        Poll::Ready(Ok((stream, _))) => assert_eq!(stream.conn, client.conn),
        other => panic!("unexpected {:?}", other),
    }
}

#[test]
fn accept_on_a_closed_listener_is_a_broken_pipe() {
    let mut rt = quiet(3);
    let addr = Address::localhost(8080);
    let listener = rt.bind(addr).unwrap();
    let mut stale = MemoryListener::new(listener.id(), addr);
    listener.close(&mut rt);
    assert_eq!(stale.accept(&mut rt, 0), Poll::Ready(Err(IoError::BrokenPipe)));
    assert!(rt.bind(addr).is_ok());
}

#[test]
fn injected_delay_holds_back_a_waiting_connection() {
    // With certainty the first word is spent on the coin and the second on
    // the length of the delay.
    let mut rt = always_delayed(9);
    let addr = Address::localhost(8080);
    let mut listener = rt.bind(addr).unwrap();
    let client = rt.connect(addr).unwrap();
    assert_eq!(rt.next_step(), Ok(Step::Poll(0)));
    assert_eq!(listener.poll_accept(&mut rt, 0), Poll::Pending);
    let state_after_roll = rt.rng.state;
    assert_eq!(listener.poll_accept(&mut rt, 0), Poll::Pending);
    assert_eq!(rt.rng.state, state_after_roll);
    rt.poll_done(false);
    let deadline = rt.executor.next_deadline().unwrap();
    assert!(deadline >= Instant::epoch().plus(Duration::from_millis(100)));
    assert!(deadline < Instant::epoch().plus(Duration::from_millis(10_000)));
    assert_eq!(rt.next_step(), Ok(Step::Advanced(deadline)));
    assert_eq!(rt.next_step(), Ok(Step::Poll(0)));
    match listener.poll_accept(&mut rt, 0) {
        Poll::Ready(Ok((stream, peer))) => {
            assert_eq!(stream.conn, client.conn);
            assert_eq!(peer, client.local);
        }
        other => panic!("unexpected {:?}", other),
    }
    assert_eq!(rt.executor.next_deadline(), None);
    // The next accept rolls again.
    assert_eq!(listener.poll_accept(&mut rt, 0), Poll::Pending);
    assert_ne!(rt.rng.state, state_after_roll);
    assert!(rt.executor.next_deadline().is_some());
}

#[test]
fn closing_a_delayed_listener_takes_its_timer_back() {
    let mut rt = always_delayed(4);
    let addr = Address::localhost(8080);
    let mut listener = rt.bind(addr).unwrap();
    assert_eq!(rt.next_step(), Ok(Step::Poll(0)));
    assert_eq!(listener.poll_accept(&mut rt, 0), Poll::Pending);
    assert!(rt.executor.next_deadline().is_some());
    listener.close(&mut rt);
    assert_eq!(rt.executor.next_deadline(), None);
    rt.poll_done(false);
    assert_eq!(rt.next_step(), Err(Error::ExecutorDeadlock));
}

#[test]
fn incoming_yields_streams() {
    let mut rt = quiet(3);
    let addr = Address::localhost(8080);
    let listener = rt.bind(addr).unwrap();
    let mut incoming = listener.incoming();
    assert_eq!(incoming.poll_next(&mut rt, 0), Poll::Pending);
    let client = rt.connect(addr).unwrap();
    match incoming.poll_next(&mut rt, 0) {
        Poll::Ready(Some(Ok(stream))) => {
            assert_eq!(stream.conn, client.conn);
            assert_eq!(stream.peer, client.local);
        }
        other => panic!("unexpected {:?}", other),
    }
    let listener = incoming.into_inner();
    assert_eq!(listener.local_addr(), Ok(addr));
    listener.close(&mut rt);
    let mut gone = MemoryListener::new(0, addr).incoming();
    assert_eq!(
        gone.poll_next(&mut rt, 0),
        Poll::Ready(Some(Err(IoError::BrokenPipe)))
    );
}

#[test]
fn stream_round_trip_and_end_of_stream() {
    let mut rt = quiet(3);
    let addr = Address::localhost(8080);
    let mut listener = rt.bind(addr).unwrap();
    let client = rt.connect(addr).unwrap();
    let server = match listener.accept(&mut rt, 0) {
        Poll::Ready(Ok((stream, _))) => stream,
        other => panic!("unexpected {:?}", other),
    };
    assert_eq!(client.poll_read(&mut rt, 0, 64), Poll::Pending);
    assert_eq!(server.poll_write(&mut rt, b"Hello World!\n"), Ok(13));
    assert_eq!(
        client.poll_read(&mut rt, 0, 64),
        Poll::Ready(Ok(b"Hello World!\n".to_vec()))
    );
    assert_eq!(client.poll_write(&mut rt, b"bye"), Ok(3));
    assert_eq!(client.shutdown(&mut rt), Ok(()));
    assert_eq!(client.poll_write(&mut rt, b"!"), Err(IoError::BrokenPipe));
    assert_eq!(server.poll_read(&mut rt, 0, 2), Poll::Ready(Ok(b"by".to_vec())));
    assert_eq!(server.poll_read(&mut rt, 0, 2), Poll::Ready(Ok(b"e".to_vec())));
    assert_eq!(server.poll_read(&mut rt, 0, 2), Poll::Ready(Ok(Vec::new())));
    server.close(&mut rt);
    assert_eq!(client.poll_read(&mut rt, 0, 2), Poll::Ready(Ok(Vec::new())));
    client.close(&mut rt);
}

#[test]
fn write_wakes_the_waiting_reader() {
    let mut rt = quiet(3);
    let addr = Address::localhost(8080);
    let reader = rt.spawn().unwrap();
    let mut listener = rt.bind(addr).unwrap();
    let client = rt.connect(addr).unwrap();
    let server = match listener.accept(&mut rt, 0) {
        Poll::Ready(Ok((stream, _))) => stream,
        other => panic!("unexpected {:?}", other),
    };
    assert_eq!(rt.next_step(), Ok(Step::Poll(0)));
    rt.poll_done(false);
    assert_eq!(rt.next_step(), Ok(Step::Poll(reader)));
    assert_eq!(server.poll_read(&mut rt, reader, 8), Poll::Pending);
    rt.poll_done(false);
    assert_eq!(rt.executor.ready_len(), 0);
    client.poll_write(&mut rt, b"x").unwrap();
    assert_eq!(rt.next_step(), Ok(Step::Poll(reader)));
    rt.poll_done(false);
    assert_eq!(server.poll_read(&mut rt, reader, 8), Poll::Ready(Ok(b"x".to_vec())));
    assert_eq!(server.poll_read(&mut rt, reader, 8), Poll::Pending);
    client.close(&mut rt);
    assert_eq!(rt.next_step(), Ok(Step::Poll(reader)));
}

#[test]
fn delay_is_ready_exactly_from_its_deadline() {
    let mut rt = quiet(3);
    let mut delay = rt.delay_from(Duration::from_secs(2));
    assert_eq!(delay.deadline(), Instant::from_nanos(2_000_000_000));
    assert!(!delay.is_elapsed(Instant::from_nanos(1_999_999_999)));
    assert!(delay.is_elapsed(Instant::from_nanos(2_000_000_000)));
    assert_eq!(rt.next_step(), Ok(Step::Poll(0)));
    let before = rt.now();
    assert_eq!(delay.poll(&mut rt.executor, 0), Poll::Pending);
    assert_eq!(delay.poll(&mut rt.executor, 0), Poll::Pending);
    rt.poll_done(false);
    assert_eq!(rt.next_step(), Ok(Step::Advanced(Instant::from_nanos(2_000_000_000))));
    assert_eq!(rt.next_step(), Ok(Step::Poll(0)));
    assert_eq!(delay.poll(&mut rt.executor, 0), Poll::Ready(()));
    assert!(rt.now() >= before.plus(Duration::from_secs(2)));
    rt.poll_done(false);
    assert_eq!(rt.next_step(), Err(Error::ExecutorDeadlock));
}

#[test]
fn zero_delay_resolves_in_the_next_pass_without_advancing_time() {
    let mut rt = quiet(3);
    assert_eq!(rt.next_step(), Ok(Step::Poll(0)));
    let mut delay = rt.delay_from(Duration::zero());
    assert_eq!(delay.poll(&mut rt.executor, 0), Poll::Pending);
    assert_eq!(rt.executor.next_deadline(), Some(Instant::epoch()));
    rt.poll_done(false);
    assert_eq!(rt.next_step(), Ok(Step::Advanced(Instant::epoch())));
    assert_eq!(rt.now(), Instant::epoch());
    assert_eq!(rt.next_step(), Ok(Step::Poll(0)));
    assert_eq!(delay.poll(&mut rt.executor, 0), Poll::Ready(()));
    assert_eq!(delay.poll(&mut rt.executor, 0), Poll::Ready(()));
    assert_eq!(rt.now(), Instant::epoch());
    assert_eq!(rt.executor.next_deadline(), None);
}

#[test]
fn a_delay_polled_again_before_its_timer_fired_takes_the_timer_back() {
    let mut rt = quiet(3);
    assert_eq!(rt.next_step(), Ok(Step::Poll(0)));
    let mut past = rt.delay(Instant::epoch());
    assert_eq!(past.poll(&mut rt.executor, 0), Poll::Pending);
    assert_eq!(past.poll(&mut rt.executor, 0), Poll::Ready(()));
    assert_eq!(rt.executor.next_deadline(), None);
    rt.poll_done(false);
    assert_eq!(rt.next_step(), Err(Error::ExecutorDeadlock));
}

#[test]
fn cancelled_delay_leaves_no_timer() {
    let mut rt = quiet(3);
    let mut delay = Delay::new(Instant::from_nanos(50));
    assert_eq!(delay.poll(&mut rt.executor, 0), Poll::Pending);
    assert_eq!(rt.executor.next_deadline(), Some(Instant::from_nanos(50)));
    delay.cancel(&mut rt.executor);
    assert_eq!(rt.executor.next_deadline(), None);
    delay.cancel(&mut rt.executor);
}

#[test]
fn timeout_prefers_the_finished_work() {
    let mut rt = quiet(3);
    let mut t = rt.timeout(Duration::from_secs(3));
    assert_eq!(t.deadline(), Instant::from_nanos(3_000_000_000));
    assert_eq!(t.poll(&mut rt.executor, 0, false), Poll::Pending);
    assert_eq!(rt.executor.next_deadline(), Some(Instant::from_nanos(3_000_000_000)));
    assert_eq!(t.poll(&mut rt.executor, 0, true), Poll::Ready(Ok(())));
    assert_eq!(rt.executor.next_deadline(), None);
    let mut late = Timeout::new(Instant::epoch());
    assert_eq!(late.poll(&mut rt.executor, 0, true), Poll::Ready(Ok(())));
    assert_eq!(late.poll(&mut rt.executor, 0, false), Poll::Pending);
    assert_eq!(late.poll(&mut rt.executor, 0, false), Poll::Ready(Err(Elapsed {})));
    assert_eq!(late.poll(&mut rt.executor, 0, true), Poll::Ready(Ok(())));
    let mut dropped = rt.timeout(Duration::from_secs(1));
    assert_eq!(dropped.poll(&mut rt.executor, 0, false), Poll::Pending);
    dropped.cancel(&mut rt.executor);
    assert_eq!(rt.executor.next_deadline(), None);
}

#[test]
fn maybe_random_delay_follows_the_seed() {
    let f = FaultConfig::standard();
    let mut rt = DeterministicRuntime::new_with_seed(9).ok().unwrap();
    let d = rt
        .maybe_random_delay(f.accept_delay_probability, f.accept_delay_min, f.accept_delay_max)
        .unwrap();
    assert_eq!(d.deadline(), Instant::from_nanos(8_942_155_106));
    let mut rt = DeterministicRuntime::new_with_seed(1).ok().unwrap();
    assert!(rt
        .maybe_random_delay(f.accept_delay_probability, f.accept_delay_min, f.accept_delay_max)
        .is_none());
}

#[test]
fn spawn_with_result_hands_out_a_handle_to_wait_on() {
    let mut rt = quiet(3);
    let handle = spawn_with_result(&mut rt).unwrap();
    assert_eq!(handle.task, 1);
    assert_eq!(rt.next_step(), Ok(Step::Poll(0)));
    assert_eq!(handle.poll(&mut rt.executor, 0), Poll::Pending);
    rt.poll_done(false);
    assert_eq!(rt.next_step(), Ok(Step::Poll(1)));
    rt.poll_done(true);
    assert_eq!(rt.next_step(), Ok(Step::Poll(0)));
    assert_eq!(handle.poll(&mut rt.executor, 0), Poll::Ready(()));
    rt.poll_done(true);
    assert_eq!(spawn_with_result(&mut rt).err(), Some(Error::SpawnAfterShutdown));
    assert_eq!(rt.spawn(), Err(Error::SpawnAfterShutdown));
}

#[test]
fn wake_puts_a_task_back_into_the_queue() {
    let mut rt = quiet(3);
    assert_eq!(rt.next_step(), Ok(Step::Poll(0)));
    rt.poll_done(false);
    rt.wake(0);
    assert_eq!(rt.next_step(), Ok(Step::Poll(0)));
}
