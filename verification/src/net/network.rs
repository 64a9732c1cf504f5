//! The registry of listeners and the table of connections.
//!
//! Binding an address opens a queue of connections that wait to be accepted.
//! Connecting to a bound address makes a fresh pair of pipes and puts the
//! connection into that queue. Nothing here blocks: an operation that would
//! have to wait notes the task that asked and answers `Pending`; an operation
//! that ends somebody's wait returns the task to wake.

use std::collections::VecDeque;
use vstd::prelude::*;
use crate::error::IoError;
use crate::net::addr::Address;
use crate::net::pipe::{Pipe, PipeState, read_view};
use crate::poll::Poll;

verus! {

/// The first port that is given to a connecting client.
pub const FIRST_CLIENT_PORT: u16 = 49152;

/// The two ends of a connection.
#[derive(Clone, Copy, Debug, PartialEq, Eq, Structural)]
pub enum Side {
    /// The end that `connect` returned.
    Client,
    /// The end that `accept` returned.
    Server,
}

/// What `connect` returns.
#[derive(Clone, Copy, Debug, PartialEq, Eq, Structural)]
pub struct Connected {
    /// The number of the connection.
    pub conn: usize,
    /// The address given to the client.
    pub local: Address,
    /// The address of the listener.
    pub peer: Address,
    /// The task that waited in `accept`, which the caller has to wake.
    pub wake: Option<usize>,
}

/// A connection as a mathematical value.
#[verifier::ext_equal]
pub struct ConnState {
    pub client_addr: Address,
    pub server_addr: Address,
    /// The bytes on their way from the client to the server.
    pub up: PipeState,
    /// The bytes on their way from the server to the client.
    pub down: PipeState,
}

/// A binding as a mathematical value.
#[verifier::ext_equal]
pub struct BindingState {
    pub addr: Address,
    /// Whether the listener is still there.
    pub listening: bool,
    /// The connections that wait to be accepted, oldest first.
    pub backlog: Seq<usize>,
    /// The task that waits in `accept`, if one does.
    pub waiting: Option<usize>,
}

/// The network as a mathematical value.
#[verifier::ext_equal]
pub struct NetworkState {
    /// Every binding ever made, by the listener's number.
    pub bindings: Seq<BindingState>,
    /// Every connection ever made, by its number.
    pub conns: Seq<ConnState>,
    /// How many connections may wait at one listener.
    pub backlog_limit: nat,
    /// The port that the next client gets.
    pub next_port: u16,
}

/// The port that follows `port` among the clients' ports.
pub open spec fn port_after(port: u16) -> u16 {
    if port == u16::MAX {
        FIRST_CLIENT_PORT
    } else {
        (port + 1) as u16
    }
}

/// A connection after its server end went away.
pub open spec fn without_server(c: ConnState) -> ConnState {
    ConnState { up: c.up.close_reader(), down: c.down.close_writer(), ..c }
}

/// A connection after its client end went away.
pub open spec fn without_client(c: ConnState) -> ConnState {
    ConnState { up: c.up.close_writer(), down: c.down.close_reader(), ..c }
}

/// The connections after the server ends of those in `pending` went away,
/// one after the other.
pub open spec fn close_pending(conns: Seq<ConnState>, pending: Seq<usize>) -> Seq<ConnState>
    decreases pending.len(),
{
    if pending.len() == 0 {
        conns
    } else {
        let before = close_pending(conns, pending.drop_last());
        let c = pending.last() as int;
        if 0 <= c < before.len() {
            before.update(c, without_server(before[c]))
        } else {
            before
        }
    }
}

/// The tasks that waited to read from the connections in `pending` when
/// their server ends went away, in that order.
pub open spec fn pending_wakes(conns: Seq<ConnState>, pending: Seq<usize>) -> Seq<usize>
    decreases pending.len(),
{
    if pending.len() == 0 {
        Seq::empty()
    } else {
        let before = close_pending(conns, pending.drop_last());
        let wakes = pending_wakes(conns, pending.drop_last());
        let c = pending.last() as int;
        if 0 <= c < before.len() && before[c].down.waiting.is_some() {
            wakes.push(before[c].down.waiting.unwrap())
        } else {
            wakes
        }
    }
}

impl ConnState {
    /// A fresh connection between `client_addr` and `server_addr`.
    pub open spec fn fresh(client_addr: Address, server_addr: Address) -> ConnState {
        ConnState {
            client_addr,
            server_addr,
            up: PipeState::initial(),
            down: PipeState::initial(),
        }
    }

    /// The pipe that `side` writes to.
    pub open spec fn outgoing(self, side: Side) -> PipeState {
        match side {
            Side::Client => self.up,
            Side::Server => self.down,
        }
    }

    /// The pipe that `side` reads from.
    pub open spec fn incoming(self, side: Side) -> PipeState {
        match side {
            Side::Client => self.down,
            Side::Server => self.up,
        }
    }

    /// This connection with `pipe` as the one that `side` writes to.
    pub open spec fn with_outgoing(self, side: Side, pipe: PipeState) -> ConnState {
        match side {
            Side::Client => ConnState { up: pipe, ..self },
            Side::Server => ConnState { down: pipe, ..self },
        }
    }

    /// This connection with `pipe` as the one that `side` reads from.
    pub open spec fn with_incoming(self, side: Side, pipe: PipeState) -> ConnState {
        match side {
            Side::Client => ConnState { down: pipe, ..self },
            Side::Server => ConnState { up: pipe, ..self },
        }
    }

    /// The address of `side`.
    pub open spec fn local_addr(self, side: Side) -> Address {
        match side {
            Side::Client => self.client_addr,
            Side::Server => self.server_addr,
        }
    }

    /// The address of the end opposite `side`.
    pub open spec fn peer_addr(self, side: Side) -> Address {
        match side {
            Side::Client => self.server_addr,
            Side::Server => self.client_addr,
        }
    }
}

impl NetworkState {
    /// A network without listeners and connections.
    pub open spec fn initial(backlog_limit: nat) -> NetworkState {
        NetworkState {
            bindings: Seq::empty(),
            conns: Seq::empty(),
            backlog_limit,
            next_port: FIRST_CLIENT_PORT,
        }
    }

    /// Binding `i` is that of a listener at `addr` that is still there.
    pub open spec fn listens_at(self, i: int, addr: Address) -> bool {
        &&& 0 <= i < self.bindings.len()
        &&& self.bindings[i].listening
        &&& self.bindings[i].addr == addr
    }

    /// Whether a listener is bound to `addr`.
    pub open spec fn is_bound(self, addr: Address) -> bool {
        exists|i: int| self.listens_at(i, addr)
    }

    /// The number of the listener bound to `addr`; meaningful where
    /// `is_bound` holds.
    pub open spec fn listener_at(self, addr: Address) -> int {
        choose|i: int| self.listens_at(i, addr)
    }

    /// What holds of every state that the network can reach: no address has
    /// two listeners, every waiting connection exists, no queue is over the
    /// limit, a listener that is gone has no queue, and every pipe has
    /// delivered what was written to it, in order.
    pub open spec fn inv(self) -> bool {
        &&& forall|i: int, j: int|
            0 <= i < self.bindings.len() && 0 <= j < self.bindings.len() && i != j && (
            #[trigger] self.bindings[i]).listening && (#[trigger] self.bindings[j]).listening
                ==> self.bindings[i].addr != self.bindings[j].addr
        &&& forall|i: int, k: int|
            0 <= i < self.bindings.len() && 0 <= k < self.bindings[i].backlog.len() ==> (
            #[trigger] self.bindings[i].backlog[k]) < self.conns.len()
        &&& forall|i: int|
            0 <= i < self.bindings.len() ==> (#[trigger] self.bindings[i]).backlog.len()
                <= self.backlog_limit
        &&& forall|i: int|
            0 <= i < self.bindings.len() && !(#[trigger] self.bindings[i]).listening
                ==> self.bindings[i].backlog.len() == 0 && self.bindings[i].waiting.is_none()
        &&& forall|c: int|
            0 <= c < self.conns.len() ==> (#[trigger] self.conns[c]).up.inv()
                && self.conns[c].down.inv()
    }

    /// What `bind` returns: the new listener's number, or `AddressInUse`
    /// where a listener is bound to `addr` already.
    pub open spec fn bind_result(self, addr: Address) -> Result<usize, IoError> {
        if self.is_bound(addr) {
            Err(IoError::AddressInUse)
        } else {
            Ok(self.bindings.len() as usize)
        }
    }

    /// The network after `bind`.
    pub open spec fn bind(self, addr: Address) -> NetworkState {
        if self.is_bound(addr) {
            self
        } else {
            NetworkState {
                bindings: self.bindings.push(
                    BindingState { addr, listening: true, backlog: Seq::empty(), waiting: None },
                ),
                ..self
            }
        }
    }

    /// Whether a connection to `addr` is taken: a listener is bound there and
    /// its queue has room.
    pub open spec fn can_connect(self, addr: Address) -> bool {
        self.is_bound(addr) && self.bindings[self.listener_at(addr)].backlog.len()
            < self.backlog_limit
    }

    /// The address that the next client of `addr` gets: the host of `addr`
    /// and the next client port.
    pub open spec fn client_addr_for(self, addr: Address) -> Address {
        Address { host: addr.host, port: self.next_port }
    }

    /// What `connect` returns: the new connection with both addresses and the
    /// task to wake, or `ConnectionRefused`.
    pub open spec fn connect_result(self, addr: Address) -> Result<Connected, IoError> {
        if self.can_connect(addr) {
            Ok(
                Connected {
                    conn: self.conns.len() as usize,
                    local: self.client_addr_for(addr),
                    peer: addr,
                    wake: self.bindings[self.listener_at(addr)].waiting,
                },
            )
        } else {
            Err(IoError::ConnectionRefused)
        }
    }

    /// The network after `connect`.
    pub open spec fn connect(self, addr: Address) -> NetworkState {
        if self.can_connect(addr) {
            let l = self.listener_at(addr);
            let b = self.bindings[l];
            NetworkState {
                bindings: self.bindings.update(
                    l,
                    BindingState {
                        backlog: b.backlog.push(self.conns.len() as usize),
                        waiting: None,
                        ..b
                    },
                ),
                conns: self.conns.push(ConnState::fresh(self.client_addr_for(addr), addr)),
                next_port: port_after(self.next_port),
                ..self
            }
        } else {
            self
        }
    }

    /// Whether `listener` is the number of a listener that is still there.
    pub open spec fn is_listening(self, listener: usize) -> bool {
        listener < self.bindings.len() && self.bindings[listener as int].listening
    }

    /// What `accept` returns: the oldest waiting connection and the client's
    /// address; `Pending` where none waits; `BrokenPipe` where the listener
    /// is gone.
    pub open spec fn accept_result(self, listener: usize) -> Poll<
        Result<(usize, Address), IoError>,
    > {
        if !self.is_listening(listener) {
            Poll::Ready(Err(IoError::BrokenPipe))
        } else if self.bindings[listener as int].backlog.len() > 0 {
            let c = self.bindings[listener as int].backlog[0];
            Poll::Ready(Ok((c, self.conns[c as int].client_addr)))
        } else {
            Poll::Pending
        }
    }

    /// The network after `task` called `accept`.
    pub open spec fn accept(self, listener: usize, task: usize) -> NetworkState {
        if !self.is_listening(listener) {
            self
        } else {
            let b = self.bindings[listener as int];
            if b.backlog.len() > 0 {
                NetworkState {
                    bindings: self.bindings.update(
                        listener as int,
                        BindingState { backlog: b.backlog.skip(1), ..b },
                    ),
                    ..self
                }
            } else {
                NetworkState {
                    bindings: self.bindings.update(
                        listener as int,
                        BindingState { waiting: Some(task), ..b },
                    ),
                    ..self
                }
            }
        }
    }

    /// The network after `listener` went away: its address is free again, and
    /// the connections that waited for it have lost their server end.
    pub open spec fn close_listener(self, listener: usize) -> NetworkState {
        if !self.is_listening(listener) {
            self
        } else {
            let b = self.bindings[listener as int];
            NetworkState {
                bindings: self.bindings.update(
                    listener as int,
                    BindingState { listening: false, backlog: Seq::empty(), waiting: None, ..b },
                ),
                conns: close_pending(self.conns, b.backlog),
                ..self
            }
        }
    }

    /// The tasks to wake after `listener` went away.
    pub open spec fn close_listener_wakes(self, listener: usize) -> Seq<usize> {
        if !self.is_listening(listener) {
            Seq::empty()
        } else {
            pending_wakes(self.conns, self.bindings[listener as int].backlog)
        }
    }

    /// What a write on `side` of `conn` returns.
    pub open spec fn write_result(self, conn: usize, side: Side) -> Result<Option<usize>, IoError> {
        if conn < self.conns.len() {
            self.conns[conn as int].outgoing(side).write_result()
        } else {
            Err(IoError::BrokenPipe)
        }
    }

    /// The network after `data` was written on `side` of `conn`.
    pub open spec fn write(self, conn: usize, side: Side, data: Seq<u8>) -> NetworkState {
        if conn < self.conns.len() {
            let c = self.conns[conn as int];
            NetworkState {
                conns: self.conns.update(
                    conn as int,
                    c.with_outgoing(side, c.outgoing(side).write(data)),
                ),
                ..self
            }
        } else {
            self
        }
    }

    /// What a read of at most `max` bytes on `side` of `conn` returns.
    pub open spec fn read_result(self, conn: usize, side: Side, max: nat) -> Poll<
        Result<Seq<u8>, IoError>,
    > {
        if conn < self.conns.len() {
            self.conns[conn as int].incoming(side).read_result(max)
        } else {
            Poll::Ready(Err(IoError::BrokenPipe))
        }
    }

    /// The network after `task` read at most `max` bytes on `side` of `conn`.
    pub open spec fn read(self, conn: usize, side: Side, max: nat, task: usize) -> NetworkState {
        if conn < self.conns.len() {
            let c = self.conns[conn as int];
            NetworkState {
                conns: self.conns.update(
                    conn as int,
                    c.with_incoming(side, c.incoming(side).read(max, task)),
                ),
                ..self
            }
        } else {
            self
        }
    }

    /// The network after `side` of `conn` stopped writing.
    pub open spec fn shutdown(self, conn: usize, side: Side) -> NetworkState {
        if conn < self.conns.len() {
            let c = self.conns[conn as int];
            NetworkState {
                conns: self.conns.update(
                    conn as int,
                    c.with_outgoing(side, c.outgoing(side).close_writer()),
                ),
                ..self
            }
        } else {
            self
        }
    }

    /// The network after `side` of `conn` went away.
    pub open spec fn close(self, conn: usize, side: Side) -> NetworkState {
        if conn < self.conns.len() {
            let c = self.conns[conn as int];
            NetworkState {
                conns: self.conns.update(
                    conn as int,
                    match side {
                        Side::Client => without_client(c),
                        Side::Server => without_server(c),
                    },
                ),
                ..self
            }
        } else {
            self
        }
    }

    /// The task to wake after `side` of `conn` stopped writing or went away:
    /// the one that waits to read what `side` writes.
    pub open spec fn close_wake(self, conn: usize, side: Side) -> Option<usize> {
        if conn < self.conns.len() {
            self.conns[conn as int].outgoing(side).waiting
        } else {
            None
        }
    }
}

/// Closing server ends keeps the number of connections and every pipe's
/// invariant, and leaves the addresses alone.
pub proof fn lemma_close_pending(conns: Seq<ConnState>, pending: Seq<usize>)
    requires
        forall|c: int| 0 <= c < conns.len() ==> (#[trigger] conns[c]).up.inv() && conns[c].down.inv(),
    ensures
        close_pending(conns, pending).len() == conns.len(),
        forall|c: int|
            0 <= c < conns.len() ==> {
                &&& (#[trigger] close_pending(conns, pending)[c]).up.inv()
                &&& close_pending(conns, pending)[c].down.inv()
                &&& close_pending(conns, pending)[c].client_addr == conns[c].client_addr
                &&& close_pending(conns, pending)[c].server_addr == conns[c].server_addr
            },
    decreases pending.len(),
{
    if pending.len() > 0 {
        lemma_close_pending(conns, pending.drop_last());
        let before = close_pending(conns, pending.drop_last());
        let c = pending.last() as int;
        if 0 <= c < before.len() {
            assert(before[c].up.inv() && before[c].down.inv());
        }
    }
}

/// Connecting keeps the invariant.
pub proof fn lemma_connect_keeps_inv(s: NetworkState, addr: Address)
    requires
        s.inv(),
    ensures
        s.connect(addr).inv(),
{
    if s.can_connect(addr) {
        let l = s.listener_at(addr);
        assert(s.listens_at(l, addr));
        let s1 = s.connect(addr);
        let conn = s.conns.len() as int;
        assert forall|i: int, j: int|
            0 <= i < s1.bindings.len() && 0 <= j < s1.bindings.len() && i != j && (
            #[trigger] s1.bindings[i]).listening && (
            #[trigger] s1.bindings[j]).listening implies s1.bindings[i].addr
            != s1.bindings[j].addr by {
            assert(s.bindings[i].listening && s.bindings[j].listening);
        }
        assert forall|i: int, k: int|
            0 <= i < s1.bindings.len() && 0 <= k < s1.bindings[i].backlog.len() implies (
        #[trigger] s1.bindings[i].backlog[k]) < s1.conns.len() by {
            if i == l && k == s.bindings[i].backlog.len() {
            } else {
                assert(s1.bindings[i].backlog[k] == s.bindings[i].backlog[k]);
            }
        }
        assert forall|i: int| 0 <= i < s1.bindings.len() implies (
        #[trigger] s1.bindings[i]).backlog.len() <= s1.backlog_limit by {
            if i != l {
                assert(s1.bindings[i] == s.bindings[i]);
            }
        }
        assert forall|i: int|
            0 <= i < s1.bindings.len() && !(
            #[trigger] s1.bindings[i]).listening implies s1.bindings[i].backlog.len() == 0
            && s1.bindings[i].waiting.is_none() by {
            assert(s1.bindings[i] == s.bindings[i]);
        }
        assert forall|c: int| 0 <= c < s1.conns.len() implies (#[trigger] s1.conns[c]).up.inv()
            && s1.conns[c].down.inv() by {
            if c < conn {
                assert(s1.conns[c] == s.conns[c]);
            } else {
                let fresh = PipeState::initial();
                assert(fresh.sent =~= fresh.delivered + fresh.buffered);
            }
        }
    }
}

/// Accepting keeps the invariant.
pub proof fn lemma_accept_keeps_inv(s: NetworkState, listener: usize, task: usize)
    requires
        s.inv(),
    ensures
        s.accept(listener, task).inv(),
{
    if s.is_listening(listener) {
        let l = listener as int;
        let s1 = s.accept(listener, task);
        assert forall|i: int, j: int|
            0 <= i < s1.bindings.len() && 0 <= j < s1.bindings.len() && i != j && (
            #[trigger] s1.bindings[i]).listening && (
            #[trigger] s1.bindings[j]).listening implies s1.bindings[i].addr
            != s1.bindings[j].addr by {
            assert(s.bindings[i].listening && s.bindings[j].listening);
        }
        assert forall|i: int, k: int|
            0 <= i < s1.bindings.len() && 0 <= k < s1.bindings[i].backlog.len() implies (
        #[trigger] s1.bindings[i].backlog[k]) < s1.conns.len() by {
            if i == l && s.bindings[l].backlog.len() > 0 {
                assert(s1.bindings[i].backlog[k] == s.bindings[i].backlog[k + 1]);
            } else {
                assert(s1.bindings[i].backlog[k] == s.bindings[i].backlog[k]);
            }
        }
        assert forall|i: int| 0 <= i < s1.bindings.len() implies (
        #[trigger] s1.bindings[i]).backlog.len() <= s1.backlog_limit by {
            assert(s.bindings[i].backlog.len() <= s.backlog_limit);
        }
        assert forall|i: int|
            0 <= i < s1.bindings.len() && !(
            #[trigger] s1.bindings[i]).listening implies s1.bindings[i].backlog.len() == 0
            && s1.bindings[i].waiting.is_none() by {
            assert(s1.bindings[i] == s.bindings[i]);
        }
    }
}

/// Taking a listener away keeps the invariant.
pub proof fn lemma_close_listener_keeps_inv(s: NetworkState, listener: usize)
    requires
        s.inv(),
    ensures
        s.close_listener(listener).inv(),
{
    if s.is_listening(listener) {
        let l = listener as int;
        let s1 = s.close_listener(listener);
        lemma_close_pending(s.conns, s.bindings[l].backlog);
        assert forall|i: int, j: int|
            0 <= i < s1.bindings.len() && 0 <= j < s1.bindings.len() && i != j && (
            #[trigger] s1.bindings[i]).listening && (
            #[trigger] s1.bindings[j]).listening implies s1.bindings[i].addr
            != s1.bindings[j].addr by {
            assert(s.bindings[i].listening && s.bindings[j].listening);
        }
        assert forall|i: int, k: int|
            0 <= i < s1.bindings.len() && 0 <= k < s1.bindings[i].backlog.len() implies (
        #[trigger] s1.bindings[i].backlog[k]) < s1.conns.len() by {
            assert(s1.bindings[i].backlog[k] == s.bindings[i].backlog[k]);
        }
        assert forall|i: int| 0 <= i < s1.bindings.len() implies (
        #[trigger] s1.bindings[i]).backlog.len() <= s1.backlog_limit by {
            assert(s.bindings[i].backlog.len() <= s.backlog_limit);
        }
        assert forall|i: int|
            0 <= i < s1.bindings.len() && !(
            #[trigger] s1.bindings[i]).listening implies s1.bindings[i].backlog.len() == 0
            && s1.bindings[i].waiting.is_none() by {
            if i != l {
                assert(s1.bindings[i] == s.bindings[i]);
            }
        }
    }
}

/// Writing, reading, and closing one end or one direction keep the
/// invariant.
pub proof fn lemma_stream_ops_keep_inv(
    s: NetworkState,
    conn: usize,
    side: Side,
    data: Seq<u8>,
    max: nat,
    task: usize,
)
    requires
        s.inv(),
    ensures
        s.write(conn, side, data).inv(),
        s.read(conn, side, max, task).inv(),
        s.shutdown(conn, side).inv(),
        s.close(conn, side).inv(),
{
    if conn < s.conns.len() {
        let c = s.conns[conn as int];
        assert(c.up.inv() && c.down.inv());
        crate::net::pipe::lemma_pipe_preserves_order(c.up, data, max, task);
        crate::net::pipe::lemma_pipe_preserves_order(c.down, data, max, task);
        MemoryNetwork::lemma_conn_change_keeps_inv(s, s.write(conn, side, data), conn as int);
        MemoryNetwork::lemma_conn_change_keeps_inv(s, s.read(conn, side, max, task), conn as int);
        MemoryNetwork::lemma_conn_change_keeps_inv(s, s.shutdown(conn, side), conn as int);
        MemoryNetwork::lemma_conn_change_keeps_inv(s, s.close(conn, side), conn as int);
    }
}

/// Where a listener is bound to an address, it is the only one.
pub proof fn lemma_listener_unique(s: NetworkState, i: int, addr: Address)
    requires
        s.inv(),
        s.listens_at(i, addr),
    ensures
        s.is_bound(addr),
        s.listener_at(addr) == i,
{
    let j = s.listener_at(addr);
    assert(s.listens_at(j, addr));
    if i != j {
        assert(s.bindings[i].listening && s.bindings[j].listening);
    }
}

struct Conn {
    client_addr: Address,
    server_addr: Address,
    up: Pipe,
    down: Pipe,
}

struct Binding {
    addr: Address,
    listening: bool,
    backlog: VecDeque<usize>,
    waiting: Option<usize>,
}

impl View for Conn {
    type V = ConnState;

    closed spec fn view(&self) -> ConnState {
        ConnState {
            client_addr: self.client_addr,
            server_addr: self.server_addr,
            up: self.up@,
            down: self.down@,
        }
    }
}

impl View for Binding {
    type V = BindingState;

    closed spec fn view(&self) -> BindingState {
        BindingState {
            addr: self.addr,
            listening: self.listening,
            backlog: self.backlog@,
            waiting: self.waiting,
        }
    }
}

/// The in-memory network.
pub struct MemoryNetwork {
    bindings: Vec<Binding>,
    conns: Vec<Conn>,
    backlog_limit: usize,
    next_port: u16,
}

impl View for MemoryNetwork {
    type V = NetworkState;

    closed spec fn view(&self) -> NetworkState {
        NetworkState {
            bindings: Seq::new(self.bindings@.len(), |i: int| self.bindings@[i]@),
            conns: Seq::new(self.conns@.len(), |i: int| self.conns@[i]@),
            backlog_limit: self.backlog_limit as nat,
            next_port: self.next_port,
        }
    }
}

impl MemoryNetwork {
    /// The network's invariant.
    pub open spec fn wf(&self) -> bool {
        self@.inv()
    }

    /// A network without listeners and connections, in which at most
    /// `backlog_limit` connections may wait at one listener.
    pub fn new(backlog_limit: usize) -> (n: MemoryNetwork)
        ensures
            n.wf(),
            n@ == NetworkState::initial(backlog_limit as nat),
    {
        let n = MemoryNetwork {
            bindings: Vec::new(),
            conns: Vec::new(),
            backlog_limit,
            next_port: FIRST_CLIENT_PORT,
        };
        assert(n@ =~~= NetworkState::initial(backlog_limit as nat));
        n
    }

    /// The number of the listener bound to `addr`, if there is one.
    pub fn find_listener(&self, addr: Address) -> (r: Option<usize>)
        requires
            self.wf(),
        ensures
            r.is_some() == self@.is_bound(addr),
            r matches Some(i) ==> self@.listener_at(addr) == i && self@.listens_at(i as int, addr),
    {
        let mut i: usize = 0;
        while i < self.bindings.len()
            invariant
                self.wf(),
                i <= self.bindings.len(),
                forall|j: int| 0 <= j < i ==> !self@.listens_at(j, addr),
            decreases self.bindings.len() - i,
        {
            if self.bindings[i].listening && self.bindings[i].addr == addr {
                proof {
                    assert(self@.listens_at(i as int, addr));
                    lemma_listener_unique(self@, i as int, addr);
                }
                return Some(i);
            }
            i = i + 1;
        }
        proof {
            if self@.is_bound(addr) {
                let j = self@.listener_at(addr);
                assert(self@.listens_at(j, addr));
            }
        }
        None
    }

    /// Binds a listener to `addr` and returns its number. Fails with
    /// `AddressInUse`, and changes nothing, where a listener is bound there
    /// already.
    pub fn bind(&mut self, addr: Address) -> (r: Result<usize, IoError>)
        requires
            old(self).wf(),
        ensures
            final(self).wf(),
            r == old(self)@.bind_result(addr),
            final(self)@ == old(self)@.bind(addr),
    {
        if self.find_listener(addr).is_some() {
            return Err(IoError::AddressInUse);
        }
        let id: usize = self.bindings.len();
        self.bindings.push(
            Binding { addr, listening: true, backlog: VecDeque::new(), waiting: None },
        );
        proof {
            let s0 = old(self)@;
            let s1 = self@;
            assert(s1.bindings =~~= s0.bind(addr).bindings);
            assert(s1.conns =~~= s0.conns);
            assert(s1 =~~= s0.bind(addr));
            lemma_bind_keeps_inv(s0, addr);
        }
        Ok(id)
    }

    /// Connects to the listener at `addr`: makes a fresh connection, puts it
    /// into the listener's queue and returns its number, both addresses and
    /// the task that waited in `accept`. Fails with `ConnectionRefused`, and
    /// changes nothing, where no listener is bound to `addr` or its queue is
    /// full.
    pub fn connect(&mut self, addr: Address) -> (r: Result<Connected, IoError>)
        requires
            old(self).wf(),
        ensures
            final(self).wf(),
            r == old(self)@.connect_result(addr),
            final(self)@ == old(self)@.connect(addr),
    {
        let l: usize = match self.find_listener(addr) {
            Some(l) => l,
            None => {
                return Err(IoError::ConnectionRefused);
            },
        };
        if self.bindings[l].backlog.len() >= self.backlog_limit {
            return Err(IoError::ConnectionRefused);
        }
        let conn: usize = self.conns.len();
        let local = Address { host: addr.host, port: self.next_port };
        let wake = self.bindings[l].waiting;
        self.conns.push(
            Conn { client_addr: local, server_addr: addr, up: Pipe::new(), down: Pipe::new() },
        );
        self.bindings[l].backlog.push_back(conn);
        self.bindings[l].waiting = None;
        self.next_port = if self.next_port == u16::MAX {
            FIRST_CLIENT_PORT
        } else {
            self.next_port + 1
        };
        proof {
            let s0 = old(self)@;
            let s1 = self@;
            assert(s0.bindings[l as int] == old(self).bindings@[l as int]@);
            assert(s1.bindings =~~= s0.connect(addr).bindings);
            assert(s1.conns =~~= s0.connect(addr).conns);
            assert(s1 =~~= s0.connect(addr));
            lemma_connect_keeps_inv(s0, addr);
        }
        Ok(Connected { conn, local, peer: addr, wake })
    }

    /// Takes the oldest waiting connection of `listener` and returns its
    /// number and the client's address. Where none waits, `task` is noted as
    /// waiting and the answer is `Pending`. Fails with `BrokenPipe` where the
    /// listener is gone.
    pub fn accept(&mut self, listener: usize, task: usize) -> (r: Poll<
        Result<(usize, Address), IoError>,
    >)
        requires
            old(self).wf(),
        ensures
            final(self).wf(),
            r == old(self)@.accept_result(listener),
            final(self)@ == old(self)@.accept(listener, task),
    {
        if listener >= self.bindings.len() || !self.bindings[listener].listening {
            return Poll::Ready(Err(IoError::BrokenPipe));
        }
        let ghost s0 = old(self)@;
        assert(s0.bindings[listener as int] == old(self).bindings@[listener as int]@);
        match self.bindings[listener].backlog.pop_front() {
            Some(conn) => {
                assert(s0.bindings[listener as int].backlog[0] == conn);
                let peer = self.conns[conn].client_addr;
                proof {
                    let s1 = self@;
                    assert(s1.bindings =~~= s0.accept(listener, task).bindings);
                    assert(s1.conns =~~= s0.conns);
                    assert(s1 =~~= s0.accept(listener, task));
                    lemma_accept_keeps_inv(s0, listener, task);
                }
                Poll::Ready(Ok((conn, peer)))
            },
            None => {
                self.bindings[listener].waiting = Some(task);
                proof {
                    let s1 = self@;
                    assert(s1.bindings =~~= s0.accept(listener, task).bindings);
                    assert(s1.conns =~~= s0.conns);
                    assert(s1 =~~= s0.accept(listener, task));
                    lemma_accept_keeps_inv(s0, listener, task);
                }
                Poll::Pending
            },
        }
    }

    /// The parts of the invariant that stay when nothing but one connection's
    /// pipes changes.
    proof fn lemma_conn_change_keeps_inv(s0: NetworkState, s1: NetworkState, c: int)
        requires
            s0.inv(),
            0 <= c < s0.conns.len(),
            s1.bindings == s0.bindings,
            s1.backlog_limit == s0.backlog_limit,
            s1.conns.len() == s0.conns.len(),
            forall|i: int| 0 <= i < s0.conns.len() && i != c ==> #[trigger] s1.conns[i] == s0.conns[i],
            s1.conns[c].up.inv(),
            s1.conns[c].down.inv(),
        ensures
            s1.inv(),
    {
        assert forall|i: int| 0 <= i < s1.conns.len() implies (#[trigger] s1.conns[i]).up.inv()
            && s1.conns[i].down.inv() by {
            if i != c {
                assert(s1.conns[i] == s0.conns[i]);
            }
        }
    }

    /// Takes `listener` away: its address is free again, and the connections
    /// that waited for it lose their server end. Returns the tasks that
    /// waited to read from those connections, which the caller has to wake.
    /// Nothing happens where the listener is gone already.
    pub fn close_listener(&mut self, listener: usize) -> (woken: Vec<usize>)
        requires
            old(self).wf(),
        ensures
            final(self).wf(),
            final(self)@ == old(self)@.close_listener(listener),
            woken@ == old(self)@.close_listener_wakes(listener),
    {
        let mut woken: Vec<usize> = Vec::new();
        if listener >= self.bindings.len() || !self.bindings[listener].listening {
            return woken;
        }
        let ghost s0 = old(self)@;
        let ghost pending = s0.bindings[listener as int].backlog;
        assert(s0.bindings[listener as int] == old(self).bindings@[listener as int]@);
        self.bindings[listener].listening = false;
        self.bindings[listener].waiting = None;
        let ghost done: int = 0;
        loop
            invariant
                0 <= done <= pending.len(),
                s0 == old(self)@,
                s0.inv(),
                pending == s0.bindings[listener as int].backlog,
                listener < self.bindings@.len(),
                self.bindings@.len() == old(self).bindings@.len(),
                forall|i: int|
                    0 <= i < self.bindings@.len() && i != listener ==> #[trigger] self.bindings@[i]
                        == old(self).bindings@[i],
                self.bindings@[listener as int].addr == old(self).bindings@[listener as int].addr,
                !self.bindings@[listener as int].listening,
                self.bindings@[listener as int].waiting.is_none(),
                self.bindings@[listener as int].backlog@ == pending.skip(done),
                self.backlog_limit == old(self).backlog_limit,
                self.next_port == old(self).next_port,
                self@.conns == close_pending(s0.conns, pending.take(done)),
                self@.conns.len() == s0.conns.len(),
                woken@ == pending_wakes(s0.conns, pending.take(done)),
            ensures
                done == pending.len(),
                self.bindings@[listener as int].backlog@.len() == 0,
            decreases pending.len() - done,
        {
            match self.bindings[listener].backlog.pop_front() {
                None => {
                    break ;
                },
                Some(conn) => {
                    assert(conn == pending[done]);
                    assert(conn < s0.conns.len());
                    let ghost before = self@.conns;
                    proof {
                        lemma_close_pending(s0.conns, pending.take(done));
                        assert(before[conn as int] == self.conns@[conn as int]@);
                    }
                    self.conns[conn].up.close_reader();
                    let w = self.conns[conn].down.close_writer();
                    if let Some(t) = w {
                        woken.push(t);
                    }
                    proof {
                        let next = pending.take(done + 1);
                        assert(next.drop_last() =~= pending.take(done));
                        assert(next.last() == conn);
                        assert(self@.conns =~~= before.update(
                            conn as int,
                            without_server(before[conn as int]),
                        ));
                        assert(self.bindings@[listener as int].backlog@ =~= pending.skip(done + 1));
                        done = done + 1;
                    }
                },
            }
        }
        proof {
            let s1 = self@;
            assert(pending.take(done) =~= pending);
            lemma_close_pending(s0.conns, pending);
            assert(s1.bindings =~~= s0.close_listener(listener).bindings);
            assert(s1 =~~= s0.close_listener(listener));
            lemma_close_listener_keeps_inv(s0, listener);
        }
        woken
    }

    /// Writes `data` on `side` of `conn`. Returns the task that waited to
    /// read it, which the caller has to wake. Fails with `BrokenPipe`, and
    /// changes nothing, where either end of that direction is closed or the
    /// connection does not exist.
    pub fn write(&mut self, conn: usize, side: Side, data: &[u8]) -> (r: Result<
        Option<usize>,
        IoError,
    >)
        requires
            old(self).wf(),
        ensures
            final(self).wf(),
            r == old(self)@.write_result(conn, side),
            final(self)@ == old(self)@.write(conn, side, data@),
    {
        if conn >= self.conns.len() {
            return Err(IoError::BrokenPipe);
        }
        let ghost s0 = old(self)@;
        assert(s0.conns[conn as int] == old(self).conns@[conn as int]@);
        let r = match side {
            Side::Client => self.conns[conn].up.write(data),
            Side::Server => self.conns[conn].down.write(data),
        };
        proof {
            let s1 = self@;
            assert(s1.bindings =~~= s0.bindings);
            assert(s1.conns =~~= s0.write(conn, side, data@).conns);
            assert(s1 =~~= s0.write(conn, side, data@));
            Self::lemma_conn_change_keeps_inv(s0, s1, conn as int);
        }
        r
    }

    /// Reads at most `max` bytes on `side` of `conn`. Where nothing is queued
    /// and the other end can still write, `task` is noted as waiting and the
    /// answer is `Pending`. An empty answer means that the other end has
    /// stopped writing and everything was read (or that `max` is zero).
    pub fn read(&mut self, conn: usize, side: Side, max: usize, task: usize) -> (r: Poll<
        Result<Vec<u8>, IoError>,
    >)
        requires
            old(self).wf(),
        ensures
            final(self).wf(),
            read_view(r) == old(self)@.read_result(conn, side, max as nat),
            final(self)@ == old(self)@.read(conn, side, max as nat, task),
    {
        if conn >= self.conns.len() {
            return Poll::Ready(Err(IoError::BrokenPipe));
        }
        let ghost s0 = old(self)@;
        assert(s0.conns[conn as int] == old(self).conns@[conn as int]@);
        let r = match side {
            Side::Client => self.conns[conn].down.read(max, task),
            Side::Server => self.conns[conn].up.read(max, task),
        };
        proof {
            let s1 = self@;
            assert(s1.bindings =~~= s0.bindings);
            assert(s1.conns =~~= s0.read(conn, side, max as nat, task).conns);
            assert(s1 =~~= s0.read(conn, side, max as nat, task));
            Self::lemma_conn_change_keeps_inv(s0, s1, conn as int);
        }
        r
    }

    /// Stops the writing of `side` of `conn`: the other end still gets what
    /// is queued, and then the end of the stream. Returns the task that
    /// waited to read, which the caller has to wake.
    pub fn shutdown(&mut self, conn: usize, side: Side) -> (woken: Option<usize>)
        requires
            old(self).wf(),
        ensures
            final(self).wf(),
            woken == old(self)@.close_wake(conn, side),
            final(self)@ == old(self)@.shutdown(conn, side),
    {
        if conn >= self.conns.len() {
            return None;
        }
        let ghost s0 = old(self)@;
        assert(s0.conns[conn as int] == old(self).conns@[conn as int]@);
        let woken = match side {
            Side::Client => self.conns[conn].up.close_writer(),
            Side::Server => self.conns[conn].down.close_writer(),
        };
        proof {
            let s1 = self@;
            assert(s1.bindings =~~= s0.bindings);
            assert(s1.conns =~~= s0.shutdown(conn, side).conns);
            assert(s1 =~~= s0.shutdown(conn, side));
            Self::lemma_conn_change_keeps_inv(s0, s1, conn as int);
        }
        woken
    }

    /// Takes `side` of `conn` away: it writes and reads no more. Returns the
    /// task that waited to read what it wrote, which the caller has to wake.
    pub fn close(&mut self, conn: usize, side: Side) -> (woken: Option<usize>)
        requires
            old(self).wf(),
        ensures
            final(self).wf(),
            woken == old(self)@.close_wake(conn, side),
            final(self)@ == old(self)@.close(conn, side),
    {
        if conn >= self.conns.len() {
            return None;
        }
        let ghost s0 = old(self)@;
        assert(s0.conns[conn as int] == old(self).conns@[conn as int]@);
        let woken = match side {
            Side::Client => {
                self.conns[conn].down.close_reader();
                self.conns[conn].up.close_writer()
            },
            Side::Server => {
                self.conns[conn].up.close_reader();
                self.conns[conn].down.close_writer()
            },
        };
        proof {
            let s1 = self@;
            assert(s1.bindings =~~= s0.bindings);
            assert(s1.conns =~~= s0.close(conn, side).conns);
            assert(s1 =~~= s0.close(conn, side));
            Self::lemma_conn_change_keeps_inv(s0, s1, conn as int);
        }
        woken
    }

    /// How many listeners were ever bound.
    pub fn listener_count(&self) -> (n: usize)
        ensures
            n == self@.bindings.len(),
    {
        self.bindings.len()
    }

    /// How many connections were ever made.
    pub fn connection_count(&self) -> (n: usize)
        ensures
            n == self@.conns.len(),
    {
        self.conns.len()
    }

    /// How many bytes wait to be read by `side` of `conn`.
    pub fn readable(&self, conn: usize, side: Side) -> (n: usize)
        ensures
            conn < self@.conns.len() ==> n == self@.conns[conn as int].incoming(
                side,
            ).buffered.len(),
            conn >= self@.conns.len() ==> n == 0,
    {
        if conn >= self.conns.len() {
            return 0;
        }
        assert(self@.conns[conn as int] == self.conns@[conn as int]@);
        match side {
            Side::Client => self.conns[conn].down.buffered_len(),
            Side::Server => self.conns[conn].up.buffered_len(),
        }
    }
}

/// Binding keeps the invariant.
pub proof fn lemma_bind_keeps_inv(s: NetworkState, addr: Address)
    requires
        s.inv(),
    ensures
        s.bind(addr).inv(),
{
    if !s.is_bound(addr) {
        let s1 = s.bind(addr);
        let id = s.bindings.len() as int;
        assert forall|i: int, j: int|
            0 <= i < s1.bindings.len() && 0 <= j < s1.bindings.len() && i != j && (
            #[trigger] s1.bindings[i]).listening && (
            #[trigger] s1.bindings[j]).listening implies s1.bindings[i].addr
            != s1.bindings[j].addr by {
            if i < id && j < id {
                assert(s.bindings[i].listening && s.bindings[j].listening);
            } else if i < id {
                assert(s1.bindings[i] == s.bindings[i]);
                assert(!s.listens_at(i, addr));
            } else {
                assert(s1.bindings[j] == s.bindings[j]);
                assert(!s.listens_at(j, addr));
            }
        }
        assert forall|i: int, k: int|
            0 <= i < s1.bindings.len() && 0 <= k < s1.bindings[i].backlog.len() implies (
        #[trigger] s1.bindings[i].backlog[k]) < s1.conns.len() by {
            assert(s1.bindings[i] == s.bindings[i]);
            assert(s.bindings[i].backlog[k] < s.conns.len());
        }
        assert forall|i: int| 0 <= i < s1.bindings.len() implies (
        #[trigger] s1.bindings[i]).backlog.len() <= s1.backlog_limit by {
            if i < id {
                assert(s1.bindings[i] == s.bindings[i]);
            }
        }
        assert forall|i: int|
            0 <= i < s1.bindings.len() && !(
            #[trigger] s1.bindings[i]).listening implies s1.bindings[i].backlog.len() == 0
            && s1.bindings[i].waiting.is_none() by {
            assert(s1.bindings[i] == s.bindings[i]);
        }
    }
}

/// An address takes one listener at a time: once `bind` has succeeded, a
/// second `bind` to the same address fails with `AddressInUse`.
pub proof fn lemma_bind_twice_fails(s: NetworkState, addr: Address)
    requires
        s.inv(),
        s.bindings.len() < usize::MAX,
        s.bind_result(addr).is_ok(),
    ensures
        s.bind(addr).bind_result(addr) == Err::<usize, IoError>(IoError::AddressInUse),
{
    lemma_bind_keeps_inv(s, addr);
    let l = s.bindings.len() as int;
    assert(s.bind(addr).listens_at(l, addr));
}

/// Connecting to an address without a listener fails at once with
/// `ConnectionRefused` and changes nothing.
pub proof fn lemma_connect_unbound_is_refused(s: NetworkState, addr: Address)
    requires
        !s.is_bound(addr),
    ensures
        s.connect_result(addr) == Err::<Connected, IoError>(IoError::ConnectionRefused),
        s.connect(addr) == s,
{
}

/// A connection is taken unless the listener is gone or its queue is full:
/// where a listener is bound to `addr` and fewer connections wait for it
/// than the limit allows, `connect` succeeds, the client's peer address is
/// `addr`, and the new connection is the last in the listener's queue.
pub proof fn lemma_connect_succeeds_unless_dropped_or_full(
    s: NetworkState,
    listener: int,
    addr: Address,
)
    requires
        s.inv(),
        s.listens_at(listener, addr),
        s.bindings[listener].backlog.len() < s.backlog_limit,
        s.conns.len() <= usize::MAX,
    ensures
        s.connect_result(addr) matches Ok(c) && c.peer == addr && c.conn == s.conns.len()
            && s.connect(addr).bindings[listener].backlog.last() == c.conn && s.connect(
            addr,
        ).conns[c.conn as int].client_addr == c.local,
        !s.is_bound(addr) || s.bindings[s.listener_at(addr)].backlog.len() >= s.backlog_limit
            <==> s.connect_result(addr).is_err(),
{
    lemma_listener_unique(s, listener, addr);
}

/// After `bind`, `connect` to the same address succeeds where the queue has
/// room for one connection; the client's peer address is the address that was
/// bound; and `accept` then hands out that very connection together with the
/// address that `connect` reported as the client's own.
pub proof fn lemma_connect_after_bind(s: NetworkState, addr: Address)
    requires
        s.inv(),
        s.bindings.len() < usize::MAX,
        s.conns.len() < usize::MAX,
        s.bind_result(addr).is_ok(),
        s.backlog_limit >= 1,
    ensures
        s.bind(addr).connect_result(addr).is_ok(),
        s.bind(addr).connect_result(addr).unwrap().peer == addr,
        s.bind(addr).connect(addr).accept_result(s.bind_result(addr).unwrap()) == Poll::Ready(
            Ok::<(usize, Address), IoError>(
                (
                    s.bind(addr).connect_result(addr).unwrap().conn,
                    s.bind(addr).connect_result(addr).unwrap().local,
                ),
            ),
        ),
{
    lemma_bind_keeps_inv(s, addr);
    let s1 = s.bind(addr);
    let l = s.bindings.len() as int;
    assert(s1.listens_at(l, addr));
    lemma_listener_unique(s1, l, addr);
    assert(s1.bindings[l].backlog.len() == 0);
    let s2 = s1.connect(addr);
    assert(s2.bindings[l].backlog[0] == s1.conns.len() as usize);
}

/// Whenever `accept` hands out a connection, the address it reports is the
/// client's own address of that connection.
pub proof fn lemma_accept_reports_client_addr(s: NetworkState, listener: usize)
    requires
        s.inv(),
    ensures
        s.accept_result(listener) matches Poll::Ready(Ok(pair)) ==> pair.0 < s.conns.len()
            && pair.1 == s.conns[pair.0 as int].local_addr(Side::Client) && pair.1
            == s.conns[pair.0 as int].peer_addr(Side::Server),
{
    if s.is_listening(listener) && s.bindings[listener as int].backlog.len() > 0 {
        assert(s.bindings[listener as int].backlog[0] < s.conns.len());
    }
}

/// The addresses of a connection never change, whatever happens on the
/// network afterwards.
pub proof fn lemma_addresses_are_stable(
    s: NetworkState,
    c: int,
    addr: Address,
    listener: usize,
    conn: usize,
    side: Side,
    data: Seq<u8>,
    max: nat,
    task: usize,
)
    requires
        s.inv(),
        0 <= c < s.conns.len(),
    ensures
        s.bind(addr).conns[c].client_addr == s.conns[c].client_addr,
        s.bind(addr).conns[c].server_addr == s.conns[c].server_addr,
        s.connect(addr).conns[c].client_addr == s.conns[c].client_addr,
        s.connect(addr).conns[c].server_addr == s.conns[c].server_addr,
        s.accept(listener, task).conns[c].client_addr == s.conns[c].client_addr,
        s.accept(listener, task).conns[c].server_addr == s.conns[c].server_addr,
        s.close_listener(listener).conns[c].client_addr == s.conns[c].client_addr,
        s.close_listener(listener).conns[c].server_addr == s.conns[c].server_addr,
        s.write(conn, side, data).conns[c].client_addr == s.conns[c].client_addr,
        s.write(conn, side, data).conns[c].server_addr == s.conns[c].server_addr,
        s.read(conn, side, max, task).conns[c].client_addr == s.conns[c].client_addr,
        s.read(conn, side, max, task).conns[c].server_addr == s.conns[c].server_addr,
        s.shutdown(conn, side).conns[c].client_addr == s.conns[c].client_addr,
        s.shutdown(conn, side).conns[c].server_addr == s.conns[c].server_addr,
        s.close(conn, side).conns[c].client_addr == s.conns[c].client_addr,
        s.close(conn, side).conns[c].server_addr == s.conns[c].server_addr,
{
    if s.is_listening(listener) {
        lemma_close_pending(s.conns, s.bindings[listener as int].backlog);
    }
}

/// An address can be bound again after its listener went away.
pub proof fn lemma_rebind_after_close(s: NetworkState, addr: Address)
    requires
        s.inv(),
        s.bindings.len() < usize::MAX,
        s.bind_result(addr).is_ok(),
    ensures
        s.bind(addr).close_listener(s.bind_result(addr).unwrap()).bind_result(addr).is_ok(),
{
    lemma_bind_keeps_inv(s, addr);
    let s1 = s.bind(addr);
    let l = s.bindings.len() as int;
    assert(s1.listens_at(l, addr));
    let s2 = s1.close_listener(l as usize);
    if s2.is_bound(addr) {
        let j = s2.listener_at(addr);
        assert(s2.listens_at(j, addr));
        assert(j != l);
        assert(s2.bindings[j] == s1.bindings[j]);
        assert(s1.listens_at(j, addr));
        lemma_listener_unique(s1, j, addr);
        lemma_listener_unique(s1, l, addr);
    }
}

/// What one end writes, the other end reads: on a fresh connection, a
/// message written by one side is what the other side's next read returns,
/// byte for byte, where the read has room for all of it.
pub proof fn lemma_message_round_trip(
    s: NetworkState,
    conn: usize,
    side: Side,
    message: Seq<u8>,
    task: usize,
)
    requires
        s.inv(),
        conn < s.conns.len(),
        s.conns[conn as int].outgoing(side).can_write(),
        s.conns[conn as int].outgoing(side).buffered.len() == 0,
        message.len() > 0,
    ensures
        s.write(conn, side, message).read_result(
            conn,
            match side {
                Side::Client => Side::Server,
                Side::Server => Side::Client,
            },
            message.len(),
        ) == Poll::Ready(Ok::<Seq<u8>, IoError>(message)),
{
    crate::net::pipe::lemma_pipe_round_trip(
        s.conns[conn as int].outgoing(side),
        message,
        task,
    );
}

} // verus!
