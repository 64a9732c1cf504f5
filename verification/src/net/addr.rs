//! Socket addresses. The network compares them and does nothing else with
//! them.

use vstd::prelude::*;

verus! {

/// An IP address.
#[derive(Clone, Copy, Debug, PartialEq, Eq, Hash, Structural)]
pub enum Host {
    /// An IPv4 address, by its four octets.
    V4(u8, u8, u8, u8),
    /// An IPv6 address, as one number in network order.
    V6(u128),
}

/// An IP address and a port.
#[derive(Clone, Copy, Debug, PartialEq, Eq, Hash, Structural)]
pub struct Address {
    pub host: Host,
    pub port: u16,
}

impl Address {
    pub fn new(host: Host, port: u16) -> (a: Address)
        ensures
            a == (Address { host, port }),
    {
        Address { host, port }
    }

    /// The IPv4 address `a.b.c.d` with the port `port`.
    pub fn v4(a: u8, b: u8, c: u8, d: u8, port: u16) -> (addr: Address)
        ensures
            addr == (Address { host: Host::V4(a, b, c, d), port }),
    {
        Address { host: Host::V4(a, b, c, d), port }
    }

    /// `127.0.0.1` with the port `port`.
    pub fn localhost(port: u16) -> (addr: Address)
        ensures
            addr == (Address { host: Host::V4(127, 0, 0, 1), port }),
    {
        Address { host: Host::V4(127, 0, 0, 1), port }
    }

    pub fn host(&self) -> (h: Host)
        ensures
            h == self.host,
    {
        self.host
    }

    pub fn port(&self) -> (p: u16)
        ensures
            p == self.port,
    {
        self.port
    }

    /// The same host with another port.
    pub fn with_port(&self, port: u16) -> (a: Address)
        ensures
            a == (Address { host: self.host, port }),
    {
        Address { host: self.host, port }
    }
}

} // verus!
