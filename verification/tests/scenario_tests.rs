use simulation::delay::{Delay, Timeout};
use simulation::deterministic::DeterministicRuntime;
use simulation::executor::Step;
use simulation::fault::FaultConfig;
use simulation::net::addr::Address;
use simulation::net::listen::MemoryListener;
use simulation::net::stream::MemoryTcpStream;
use simulation::time::{Duration, Instant};
use simulation::{Elapsed, Error, IoError, Poll};

/// What a task may do besides polling: spawn more tasks and note events.
struct Ctx {
    spawned: Vec<(usize, Box<dyn Task>)>,
    events: Vec<String>,
}

trait Task {
    /// Polls the task; `true` means that it has completed.
    fn poll(&mut self, rt: &mut DeterministicRuntime, me: usize, ctx: &mut Ctx) -> bool;
}

/// Runs the root task `root` until it completes, polling whatever the
/// executor names. Returns the events that the tasks noted.
fn block_on(rt: &mut DeterministicRuntime, root: Box<dyn Task>) -> Result<Vec<String>, Error> {
    let mut tasks: Vec<Option<Box<dyn Task>>> = vec![Some(root)];
    let mut ctx = Ctx { spawned: Vec::new(), events: Vec::new() };
    let mut last_now = rt.now();
    loop {
        let ready_before = rt.executor.ready_len();
        let step = rt.next_step()?;
        assert!(rt.now() >= last_now);
        match step {
            Step::Finished => return Ok(ctx.events),
            Step::Advanced(now) => {
                assert_eq!(ready_before, 0);
                assert_eq!(now, rt.now());
                ctx.events.push(format!("advance {}", now.as_nanos()));
            }
            Step::Poll(id) => {
                assert_eq!(rt.now(), last_now);
                let mut task = tasks[id].take().unwrap();
                let done = task.poll(rt, id, &mut ctx);
                if !done {
                    tasks[id] = Some(task);
                }
                for (new_id, new_task) in ctx.spawned.drain(..) {
                    while tasks.len() <= new_id {
                        tasks.push(None);
                    }
                    tasks[new_id] = Some(new_task);
                }
                rt.poll_done(done);
            }
        }
        last_now = rt.now();
    }
}

fn spawn(rt: &mut DeterministicRuntime, ctx: &mut Ctx, task: Box<dyn Task>) {
    let id = rt.spawn().unwrap();
    ctx.spawned.push((id, task));
}

/// Writes one line to the connection and goes away.
struct Greeter {
    stream: Option<MemoryTcpStream>,
}

impl Task for Greeter {
    fn poll(&mut self, rt: &mut DeterministicRuntime, _me: usize, ctx: &mut Ctx) -> bool {
        let stream = self.stream.take().unwrap();
        stream.poll_write(rt, b"Hello World!\n").unwrap();
        ctx.events.push(format!("greeted {}", stream.peer.port()));
        stream.close(rt);
        true
    }
}

/// Binds, then accepts connections for ever and hands each to a greeter.
struct Server {
    addr: Address,
    listener: Option<MemoryListener>,
}

impl Task for Server {
    fn poll(&mut self, rt: &mut DeterministicRuntime, me: usize, ctx: &mut Ctx) -> bool {
        if self.listener.is_none() {
            self.listener = Some(rt.bind(self.addr).unwrap());
            ctx.events.push(format!("bound at {}", rt.now().as_nanos()));
        }
        loop {
            match self.listener.as_mut().unwrap().accept(rt, me) {
                Poll::Ready(Ok((stream, peer))) => {
                    ctx.events.push(format!("accepted {} at {}", peer.port(), rt.now().as_nanos()));
                    spawn(rt, ctx, Box::new(Greeter { stream: Some(stream) }));
                }
                Poll::Ready(Err(e)) => panic!("accept failed: {:?}", e),
                Poll::Pending => return false,
            }
        }
    }
}

enum ClientState {
    Start,
    Sleeping(Delay),
    Reading(MemoryTcpStream, Vec<u8>),
}

/// Spawns the server, then connects (trying again after a second where the
/// connection is refused), reads one line, and does so `rounds` times.
struct Client {
    addr: Address,
    rounds: usize,
    spawn_server: bool,
    state: ClientState,
}

impl Task for Client {
    fn poll(&mut self, rt: &mut DeterministicRuntime, me: usize, ctx: &mut Ctx) -> bool {
        if self.spawn_server {
            self.spawn_server = false;
            spawn(rt, ctx, Box::new(Server { addr: self.addr, listener: None }));
        }
        loop {
            match std::mem::replace(&mut self.state, ClientState::Start) {
                ClientState::Start => match rt.connect(self.addr) {
                    Ok(stream) => {
                        ctx.events.push(format!("connected at {}", rt.now().as_nanos()));
                        self.state = ClientState::Reading(stream, Vec::new());
                    }
                    Err(e) => {
                        assert_eq!(e, IoError::ConnectionRefused);
                        ctx.events.push(format!("refused at {}", rt.now().as_nanos()));
                        self.state = ClientState::Sleeping(rt.delay_from(Duration::from_secs(1)));
                    }
                },
                ClientState::Sleeping(mut delay) => match delay.poll(&mut rt.executor, me) {
                    Poll::Ready(()) => self.state = ClientState::Start,
                    Poll::Pending => {
                        self.state = ClientState::Sleeping(delay);
                        return false;
                    }
                },
                ClientState::Reading(stream, mut line) => match stream.poll_read(rt, me, 5) {
                    Poll::Ready(Ok(bytes)) => {
                        assert!(!bytes.is_empty(), "the server went away");
                        line.extend(bytes);
                        if line.ends_with(b"\n") {
                            assert_eq!(line, b"Hello World!\n");
                            ctx.events.push(format!("read at {}", rt.now().as_nanos()));
                            stream.close(rt);
                            self.rounds -= 1;
                            if self.rounds == 0 {
                                return true;
                            }
                        } else {
                            self.state = ClientState::Reading(stream, line);
                        }
                    }
                    Poll::Ready(Err(e)) => panic!("read failed: {:?}", e),
                    Poll::Pending => {
                        self.state = ClientState::Reading(stream, line);
                        return false;
                    }
                },
            }
        }
    }
}

fn greet(seed: u64, rounds: usize) -> (Vec<String>, Instant) {
    let mut rt = DeterministicRuntime::new_with_seed(seed).ok().unwrap();
    let client = Client {
        addr: Address::localhost(8080),
        rounds,
        spawn_server: true,
        state: ClientState::Start,
    };
    let events = block_on(&mut rt, Box::new(client)).unwrap();
    (events, rt.now())
}

#[test]
fn hello_world_greet_seed_1() {
    let (events, now) = greet(1, 1);
    assert!(now >= Instant::from_nanos(1_000_000_000));
    assert!(now <= Instant::from_nanos(11_000_000_000));
    assert_eq!(now, Instant::from_nanos(1_000_000_000));
    assert_eq!(
        events,
        vec![
            "refused at 0",
            "bound at 0",
            "advance 1000000000",
            "connected at 1000000000",
            "accepted 49152 at 1000000000",
            "greeted 49152",
            "read at 1000000000",
        ]
    );
}

#[test]
fn hello_world_greet_with_injected_accept_delay() {
    // Under seed 9 the first accept is delayed by 8942155106 ns.
    let (events, now) = greet(9, 1);
    assert!(now >= Instant::from_nanos(1_000_000_000));
    assert!(now <= Instant::from_nanos(11_000_000_000));
    assert_eq!(now, Instant::from_nanos(8_942_155_106));
    assert_eq!(
        events,
        vec![
            "refused at 0",
            "bound at 0",
            "advance 1000000000",
            "connected at 1000000000",
            "advance 8942155106",
            "accepted 49152 at 8942155106",
            "greeted 49152",
            "read at 8942155106",
        ]
    );
}

#[test]
fn two_runs_of_one_seed_are_identical() {
    for seed in [0u64, 1, 9, 22, 12345, u64::MAX] {
        let first = greet(seed, 8);
        let second = greet(seed, 8);
        assert_eq!(first, second);
    }
}

#[test]
fn seed_zero_and_seed_max_run_to_completion() {
    for seed in [0u64, u64::MAX] {
        let (events, now) = greet(seed, 3);
        assert_eq!(events.iter().filter(|e| e.starts_with("read at")).count(), 3);
        assert!(now >= Instant::from_nanos(1_000_000_000));
        assert_eq!(greet(seed, 3), (events, now));
    }
}

#[test]
fn seeds_1_and_22_diverge_where_the_draws_differ() {
    // Each accept consults the injector once. Under seed 1 none of the first
    // six words says yes; under seed 22 the fourth does (20482 < 100000).
    let calm = greet(1, 4);
    let faulty = greet(22, 4);
    assert_eq!(calm, greet(1, 4));
    assert_eq!(faulty, greet(22, 4));
    assert_ne!(calm.0, faulty.0);
    assert_eq!(calm.1, Instant::from_nanos(1_000_000_000));
    assert!(faulty.1 > Instant::from_nanos(1_000_000_000));
    // Up to the third greeting the two runs agree.
    let third = calm.0.iter().position(|e| e == "greeted 49154").unwrap();
    assert_eq!(calm.0[..=third], faulty.0[..=third]);
    // One connection only: the single draw is the same kind under both seeds.
    assert_eq!(greet(1, 1), greet(22, 1));
}

/// The same loop with `next_task` in place of `next_step`.
fn block_on_tasks(rt: &mut DeterministicRuntime, root: Box<dyn Task>) -> Result<Vec<String>, Error> {
    let mut tasks: Vec<Option<Box<dyn Task>>> = vec![Some(root)];
    let mut ctx = Ctx { spawned: Vec::new(), events: Vec::new() };
    while let Some(id) = rt.next_task()? {
        let mut task = tasks[id].take().unwrap();
        let done = task.poll(rt, id, &mut ctx);
        if !done {
            tasks[id] = Some(task);
        }
        for (new_id, new_task) in ctx.spawned.drain(..) {
            while tasks.len() <= new_id {
                tasks.push(None);
            }
            tasks[new_id] = Some(new_task);
        }
        rt.poll_done(done);
        if done && id == 0 {
            break;
        }
    }
    Ok(ctx.events)
}

#[test]
fn next_task_drives_the_same_run() {
    for seed in [1u64, 9, 22] {
        let mut rt = DeterministicRuntime::new_with_seed(seed).ok().unwrap();
        let client = Client {
            addr: Address::localhost(8080),
            rounds: 4,
            spawn_server: true,
            state: ClientState::Start,
        };
        let events = block_on_tasks(&mut rt, Box::new(client)).unwrap();
        let (expected, now) = greet(seed, 4);
        let expected: Vec<String> =
            expected.into_iter().filter(|e| !e.starts_with("advance")).collect();
        assert_eq!(events, expected);
        assert_eq!(rt.now(), now);
        assert_eq!(rt.next_task(), Ok(None));
    }
}

struct Forever;

impl Task for Forever {
    fn poll(&mut self, _rt: &mut DeterministicRuntime, _me: usize, _ctx: &mut Ctx) -> bool {
        false
    }
}

#[test]
fn deadlock_detection() {
    let mut rt = DeterministicRuntime::new_with_seed(1).ok().unwrap();
    assert_eq!(block_on(&mut rt, Box::new(Forever)).err(), Some(Error::ExecutorDeadlock));
    assert_eq!(rt.now(), Instant::epoch());
}

/// Guards a delay of `inner` by a timeout of `outer` and notes the outcome.
struct Race {
    inner: Duration,
    outer: Duration,
    started: Option<(Delay, Timeout)>,
    outcome: std::rc::Rc<std::cell::RefCell<Option<Result<(), Elapsed>>>>,
}

impl Task for Race {
    fn poll(&mut self, rt: &mut DeterministicRuntime, me: usize, _ctx: &mut Ctx) -> bool {
        if self.started.is_none() {
            self.started = Some((rt.delay_from(self.inner), rt.timeout(self.outer)));
        }
        let (delay, timeout) = self.started.as_mut().unwrap();
        let inner_ready = delay.poll(&mut rt.executor, me).is_ready();
        match timeout.poll(&mut rt.executor, me, inner_ready) {
            Poll::Ready(result) => {
                if result.is_err() {
                    delay.cancel(&mut rt.executor);
                }
                *self.outcome.borrow_mut() = Some(result);
                true
            }
            Poll::Pending => false,
        }
    }
}

fn race(inner: Duration, outer: Duration) -> (Option<Result<(), Elapsed>>, Instant) {
    let mut rt = DeterministicRuntime::new_with_seed(1).ok().unwrap();
    let outcome = std::rc::Rc::new(std::cell::RefCell::new(None));
    let task = Race { inner, outer, started: None, outcome: outcome.clone() };
    block_on(&mut rt, Box::new(task)).unwrap();
    assert_eq!(rt.executor.next_deadline(), None);
    let result = outcome.borrow().clone();
    (result, rt.now())
}

#[test]
fn timeout_races_delay() {
    let (result, now) = race(Duration::from_secs(5), Duration::from_secs(3));
    assert_eq!(result, Some(Err(Elapsed {})));
    assert_eq!(now, Instant::from_nanos(3_000_000_000));
}

#[test]
fn timeout_longer_than_delay_is_ok() {
    let d = Duration::from_millis(250);
    let (result, now) = race(d, Duration::from_nanos(d.as_nanos() + 1));
    assert_eq!(result, Some(Ok(())));
    assert_eq!(now, Instant::from_nanos(250_000_000));
    let (result, now) = race(Duration::from_nanos(d.as_nanos() + 1), d);
    assert_eq!(result, Some(Err(Elapsed {})));
    assert_eq!(now, Instant::from_nanos(250_000_000));
    let (result, _) = race(d, d);
    assert_eq!(result, Some(Ok(())));
}

#[test]
fn bind_drop_rebind() {
    let mut rt = DeterministicRuntime::new_with_seed(1).ok().unwrap();
    let addr = Address::localhost(8080);
    let first = rt.bind(addr).unwrap();
    assert_eq!(rt.bind(addr).err(), Some(IoError::AddressInUse));
    first.close(&mut rt);
    let second = rt.bind(addr).unwrap();
    assert_ne!(second.id(), 0);
    assert!(rt.connect(addr).is_ok());
}

#[test]
fn address_in_use() {
    let mut rt = DeterministicRuntime::new_with_seed(1).ok().unwrap();
    let addr = Address::localhost(8080);
    let _listener = rt.bind(addr).unwrap();
    assert_eq!(rt.bind(addr).err(), Some(IoError::AddressInUse));
}

#[test]
fn refused_connect() {
    let mut rt = DeterministicRuntime::new_with_seed(1).ok().unwrap();
    let before = rt.now();
    assert_eq!(
        rt.connect(Address::localhost(9999)).err(),
        Some(IoError::ConnectionRefused)
    );
    assert_eq!(rt.now(), before);
}
