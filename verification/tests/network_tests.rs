use simulation::net::addr::{Address, Host};
use simulation::net::network::{Connected, MemoryNetwork, Side, FIRST_CLIENT_PORT};
use simulation::net::pipe::Pipe;
use simulation::{IoError, Poll};

fn addr(port: u16) -> Address {
    Address::localhost(port)
}

#[test]
fn addresses_compare_by_host_and_port() {
    assert_eq!(Address::v4(127, 0, 0, 1, 8080), Address::localhost(8080));
    assert_ne!(Address::localhost(8080), Address::localhost(8081));
    assert_ne!(Address::v4(10, 0, 0, 1, 80), Address::v4(10, 0, 0, 2, 80));
    assert_ne!(
        Address::new(Host::V6(1), 80),
        Address::new(Host::V4(0, 0, 0, 1), 80)
    );
    let a = Address::v4(1, 2, 3, 4, 5);
    assert_eq!(a.host(), Host::V4(1, 2, 3, 4));
    assert_eq!(a.port(), 5);
    assert_eq!(a.with_port(6), Address::v4(1, 2, 3, 4, 6));
}

#[test]
fn pipe_delivers_bytes_in_order() {
    let mut pipe = Pipe::new();
    assert_eq!(pipe.write(b"hello "), Ok(None));
    assert_eq!(pipe.write(b"world"), Ok(None));
    assert_eq!(pipe.buffered_len(), 11);
    assert_eq!(pipe.read(4, 1), Poll::Ready(Ok(b"hell".to_vec())));
    assert_eq!(pipe.read(100, 1), Poll::Ready(Ok(b"o world".to_vec())));
    assert_eq!(pipe.buffered_len(), 0);
}

#[test]
fn pipe_read_waits_and_write_names_the_waiter() {
    let mut pipe = Pipe::new();
    assert_eq!(pipe.read(8, 42), Poll::Pending);
    assert_eq!(pipe.write(b"x"), Ok(Some(42)));
    assert_eq!(pipe.write(b"y"), Ok(None));
    assert_eq!(pipe.read(8, 42), Poll::Ready(Ok(b"xy".to_vec())));
}

#[test]
fn pipe_end_of_stream_comes_after_the_queued_bytes() {
    let mut pipe = Pipe::new();
    pipe.write(b"tail").unwrap();
    assert_eq!(pipe.close_writer(), None);
    assert!(!pipe.is_writer_open());
    assert!(pipe.is_reader_open());
    assert_eq!(pipe.write(b"more"), Err(IoError::BrokenPipe));
    assert_eq!(pipe.read(2, 1), Poll::Ready(Ok(b"ta".to_vec())));
    assert_eq!(pipe.read(2, 1), Poll::Ready(Ok(b"il".to_vec())));
    assert_eq!(pipe.read(2, 1), Poll::Ready(Ok(Vec::new())));
    assert_eq!(pipe.read(2, 1), Poll::Ready(Ok(Vec::new())));
}

#[test]
fn pipe_closing_the_writer_names_the_waiting_reader() {
    let mut pipe = Pipe::new();
    assert_eq!(pipe.read(1, 9), Poll::Pending);
    assert_eq!(pipe.close_writer(), Some(9));
    assert_eq!(pipe.read(1, 9), Poll::Ready(Ok(Vec::new())));
}

#[test]
fn pipe_write_fails_once_the_reader_is_gone() {
    let mut pipe = Pipe::new();
    pipe.close_reader();
    assert_eq!(pipe.write(b"x"), Err(IoError::BrokenPipe));
    assert_eq!(pipe.read(1, 1), Poll::Ready(Err(IoError::BrokenPipe)));
    assert_eq!(pipe.buffered_len(), 0);
}

#[test]
fn pipe_read_of_nothing_returns_nothing() {
    let mut pipe = Pipe::new();
    pipe.write(b"abc").unwrap();
    assert_eq!(pipe.read(0, 1), Poll::Ready(Ok(Vec::new())));
    assert_eq!(pipe.buffered_len(), 3);
}

#[test]
fn pipe_round_trips_long_messages() {
    let message: Vec<u8> = (0..100_000u32).map(|i| (i % 251) as u8).collect();
    let mut pipe = Pipe::new();
    pipe.write(&message).unwrap();
    assert_eq!(pipe.read(message.len(), 0), Poll::Ready(Ok(message.clone())));
    let mut pipe = Pipe::new();
    for chunk in message.chunks(777) {
        pipe.write(chunk).unwrap();
    }
    let mut got = Vec::new();
    loop {
        match pipe.read(1000, 0) {
            Poll::Ready(Ok(bytes)) => got.extend(bytes),
            Poll::Pending => break,
            other => panic!("unexpected {:?}", other),
        }
    }
    assert_eq!(got, message);
}

#[test]
fn bind_twice_fails_with_address_in_use() {
    let mut net = MemoryNetwork::new(4);
    assert_eq!(net.bind(addr(8080)), Ok(0));
    assert_eq!(net.bind(addr(8080)), Err(IoError::AddressInUse));
    assert_eq!(net.bind(addr(8081)), Ok(1));
    assert_eq!(net.listener_count(), 2);
    assert_eq!(net.find_listener(addr(8080)), Some(0));
    assert_eq!(net.find_listener(addr(8081)), Some(1));
    assert_eq!(net.find_listener(addr(8082)), None);
}

#[test]
fn connect_without_listener_is_refused() {
    let mut net = MemoryNetwork::new(4);
    assert_eq!(net.connect(addr(9999)), Err(IoError::ConnectionRefused));
    assert_eq!(net.connection_count(), 0);
}

#[test]
fn connect_queues_at_the_listener_and_accept_takes_the_oldest() {
    let mut net = MemoryNetwork::new(4);
    let l = net.bind(addr(8080)).unwrap();
    assert_eq!(net.accept(l, 5), Poll::Pending);
    let first = net.connect(addr(8080)).unwrap();
    assert_eq!(
        first,
        Connected {
            conn: 0,
            local: Address::localhost(FIRST_CLIENT_PORT),
            peer: addr(8080),
            wake: Some(5),
        }
    );
    let second = net.connect(addr(8080)).unwrap();
    assert_eq!(second.conn, 1);
    assert_eq!(second.local, Address::localhost(FIRST_CLIENT_PORT + 1));
    assert_eq!(second.wake, None);
    assert_eq!(net.accept(l, 5), Poll::Ready(Ok((0, first.local))));
    assert_eq!(net.accept(l, 5), Poll::Ready(Ok((1, second.local))));
    assert_eq!(net.accept(l, 5), Poll::Pending);
}

#[test]
fn full_backlog_refuses_connections() {
    let mut net = MemoryNetwork::new(2);
    let l = net.bind(addr(8080)).unwrap();
    assert!(net.connect(addr(8080)).is_ok());
    assert!(net.connect(addr(8080)).is_ok());
    assert_eq!(net.connect(addr(8080)), Err(IoError::ConnectionRefused));
    assert_eq!(net.connection_count(), 2);
    assert!(net.accept(l, 0).is_ready());
    assert!(net.connect(addr(8080)).is_ok());
}

#[test]
fn closed_listener_frees_the_address_and_refuses_connections() {
    let mut net = MemoryNetwork::new(4);
    let l = net.bind(addr(8080)).unwrap();
    assert_eq!(net.close_listener(l), Vec::<usize>::new());
    assert_eq!(net.connect(addr(8080)), Err(IoError::ConnectionRefused));
    assert_eq!(net.accept(l, 0), Poll::Ready(Err(IoError::BrokenPipe)));
    assert_eq!(net.accept(17, 0), Poll::Ready(Err(IoError::BrokenPipe)));
    let again = net.bind(addr(8080)).unwrap();
    assert_eq!(again, 1);
    assert!(net.connect(addr(8080)).is_ok());
    assert_eq!(net.close_listener(l), Vec::<usize>::new());
    assert_eq!(net.find_listener(addr(8080)), Some(again));
}

#[test]
fn closing_a_listener_ends_the_connections_that_waited_for_it() {
    let mut net = MemoryNetwork::new(4);
    let l = net.bind(addr(8080)).unwrap();
    let a = net.connect(addr(8080)).unwrap().conn;
    let b = net.connect(addr(8080)).unwrap().conn;
    let c = net.connect(addr(8080)).unwrap().conn;
    assert_eq!(net.read(a, Side::Client, 8, 11), Poll::Pending);
    assert_eq!(net.read(c, Side::Client, 8, 13), Poll::Pending);
    assert_eq!(net.write(b, Side::Client, b"early"), Ok(None));
    assert_eq!(net.close_listener(l), vec![11, 13]);
    assert_eq!(net.read(a, Side::Client, 8, 11), Poll::Ready(Ok(Vec::new())));
    assert_eq!(net.write(b, Side::Client, b"late"), Err(IoError::BrokenPipe));
}

#[test]
fn both_directions_are_independent() {
    let mut net = MemoryNetwork::new(4);
    let l = net.bind(addr(8080)).unwrap();
    let c = net.connect(addr(8080)).unwrap().conn;
    assert!(net.accept(l, 0).is_ready());
    assert_eq!(net.write(c, Side::Client, b"ping"), Ok(None));
    assert_eq!(net.write(c, Side::Server, b"pong"), Ok(None));
    assert_eq!(net.readable(c, Side::Server), 4);
    assert_eq!(net.readable(c, Side::Client), 4);
    assert_eq!(net.readable(c + 1, Side::Client), 0);
    assert_eq!(net.read(c, Side::Server, 16, 0), Poll::Ready(Ok(b"ping".to_vec())));
    assert_eq!(net.read(c, Side::Client, 16, 0), Poll::Ready(Ok(b"pong".to_vec())));
}

#[test]
fn shutdown_ends_one_direction_only() {
    let mut net = MemoryNetwork::new(4);
    net.bind(addr(8080)).unwrap();
    let c = net.connect(addr(8080)).unwrap().conn;
    assert_eq!(net.read(c, Side::Server, 4, 3), Poll::Pending);
    assert_eq!(net.shutdown(c, Side::Client), Some(3));
    assert_eq!(net.read(c, Side::Server, 4, 3), Poll::Ready(Ok(Vec::new())));
    assert_eq!(net.write(c, Side::Client, b"x"), Err(IoError::BrokenPipe));
    assert_eq!(net.write(c, Side::Server, b"reply"), Ok(None));
    assert_eq!(net.read(c, Side::Client, 16, 0), Poll::Ready(Ok(b"reply".to_vec())));
}

#[test]
fn close_ends_both_directions() {
    let mut net = MemoryNetwork::new(4);
    net.bind(addr(8080)).unwrap();
    let c = net.connect(addr(8080)).unwrap().conn;
    net.write(c, Side::Server, b"unread").unwrap();
    assert_eq!(net.read(c, Side::Server, 4, 3), Poll::Pending);
    assert_eq!(net.close(c, Side::Client), Some(3));
    assert_eq!(net.read(c, Side::Server, 4, 3), Poll::Ready(Ok(Vec::new())));
    assert_eq!(net.write(c, Side::Server, b"x"), Err(IoError::BrokenPipe));
    assert_eq!(net.read(c, Side::Client, 4, 0), Poll::Ready(Err(IoError::BrokenPipe)));
    assert_eq!(net.close(c, Side::Client), None);
}

#[test]
fn operations_on_unknown_connections_fail() {
    let mut net = MemoryNetwork::new(4);
    assert_eq!(net.write(3, Side::Client, b"x"), Err(IoError::BrokenPipe));
    assert_eq!(net.read(3, Side::Client, 1, 0), Poll::Ready(Err(IoError::BrokenPipe)));
    assert_eq!(net.shutdown(3, Side::Server), None);
    assert_eq!(net.close(3, Side::Server), None);
}

#[test]
fn client_ports_wrap_around() {
    let mut net = MemoryNetwork::new(usize::MAX);
    net.bind(addr(1)).unwrap();
    let span = (u16::MAX - FIRST_CLIENT_PORT) as usize + 1;
    let mut last = None;
    for _ in 0..span {
        last = Some(net.connect(addr(1)).unwrap().local.port());
    }
    assert_eq!(last, Some(u16::MAX));
    assert_eq!(net.connect(addr(1)).unwrap().local.port(), FIRST_CLIENT_PORT);
}

#[test]
fn error_names() {
    assert_eq!(IoError::AddressInUse.name(), "address in use");
    assert_eq!(IoError::ConnectionRefused.name(), "connection refused");
    assert_eq!(IoError::BrokenPipe.name(), "broken pipe");
    assert_eq!(simulation::Error::RuntimeBuild.name(), "runtime build failed");
    assert_eq!(simulation::Error::SpawnAfterShutdown.name(), "spawn after shutdown");
    assert_eq!(simulation::Error::ExecutorDeadlock.name(), "executor deadlock");
}
