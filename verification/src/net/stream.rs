//! One end of a connection, as a task holds it.

use vstd::prelude::*;
use crate::error::IoError;
use crate::net::addr::Address;
use crate::net::network::Side;
use crate::net::pipe::read_view;
use crate::poll::Poll;
use crate::deterministic::{DeterministicRuntime, RuntimeState};

verus! {

/// One end of an in-memory connection.
#[derive(Debug, PartialEq, Eq, Structural)]
pub struct MemoryTcpStream {
    /// The number of the connection.
    pub conn: usize,
    /// Which end this is.
    pub side: Side,
    /// The address of this end.
    pub local: Address,
    /// The address of the other end.
    pub peer: Address,
}

impl MemoryTcpStream {
    /// The end of `conn` that `connect` hands to the client.
    pub fn new_client(conn: usize, local: Address, peer: Address) -> (s: MemoryTcpStream)
        ensures
            s == (MemoryTcpStream { conn, side: Side::Client, local, peer }),
    {
        MemoryTcpStream { conn, side: Side::Client, local, peer }
    }

    /// The end of `conn` that `accept` hands to the server.
    pub fn new_server(conn: usize, local: Address, peer: Address) -> (s: MemoryTcpStream)
        ensures
            s == (MemoryTcpStream { conn, side: Side::Server, local, peer }),
    {
        MemoryTcpStream { conn, side: Side::Server, local, peer }
    }

    pub fn local_addr(&self) -> (r: Result<Address, IoError>)
        ensures
            r == Ok::<Address, IoError>(self.local),
    {
        Ok(self.local)
    }

    pub fn peer_addr(&self) -> (r: Result<Address, IoError>)
        ensures
            r == Ok::<Address, IoError>(self.peer),
    {
        Ok(self.peer)
    }

    /// What a write of `len` bytes returns: `len`, or `BrokenPipe` where
    /// either end of this direction is closed.
    pub open spec fn write_result(&self, rt: RuntimeState, len: usize) -> Result<usize, IoError> {
        match rt.network.write_result(self.conn, self.side) {
            Ok(_) => Ok(len),
            Err(e) => Err(e),
        }
    }

    /// Writes all of `data`. Writing never has to wait.
    pub fn poll_write(&self, rt: &mut DeterministicRuntime, data: &[u8]) -> (r: Result<
        usize,
        IoError,
    >)
        requires
            old(rt).wf(),
        ensures
            final(rt).wf(),
            r == self.write_result(old(rt)@, data.len()),
            final(rt)@ == old(rt)@.write(self.conn, self.side, data@),
    {
        match rt.network.write(self.conn, self.side, data) {
            Ok(woken) => {
                rt.executor.wake_opt(woken);
                Ok(data.len())
            },
            Err(e) => Err(e),
        }
    }

    /// Reads at most `max` bytes: the oldest that are queued for this end.
    /// Where none is queued, the answer is empty once the other end has
    /// stopped writing, and `Pending` before; `task` is then woken by the
    /// next write or by the other end's closing.
    pub fn poll_read(&self, rt: &mut DeterministicRuntime, task: usize, max: usize) -> (r: Poll<
        Result<Vec<u8>, IoError>,
    >)
        requires
            old(rt).wf(),
        ensures
            final(rt).wf(),
            read_view(r) == old(rt)@.network.read_result(self.conn, self.side, max as nat),
            final(rt)@ == old(rt)@.read(self.conn, self.side, max as nat, task),
    {
        rt.network.read(self.conn, self.side, max, task)
    }

    /// Stops writing on this end. The other end still reads what is queued,
    /// and then the end of the stream.
    pub fn shutdown(&self, rt: &mut DeterministicRuntime) -> (r: Result<(), IoError>)
        requires
            old(rt).wf(),
        ensures
            final(rt).wf(),
            r.is_ok(),
            final(rt)@ == old(rt)@.shutdown(self.conn, self.side),
    {
        let woken = rt.network.shutdown(self.conn, self.side);
        rt.executor.wake_opt(woken);
        Ok(())
    }

    /// Gives this end up: it reads and writes no more, and the other end
    /// reads the end of the stream after what is queued.
    pub fn close(self, rt: &mut DeterministicRuntime)
        requires
            old(rt).wf(),
        ensures
            final(rt).wf(),
            final(rt)@ == old(rt)@.close(self.conn, self.side),
    {
        let woken = rt.network.close(self.conn, self.side);
        rt.executor.wake_opt(woken);
    }
}

} // verus!
