//! The in-memory network: addresses, byte pipes, the registry of listeners,
//! and the listener and stream objects that tasks hold.

pub mod addr;
pub mod pipe;
pub mod network;
pub mod stream;
pub mod listen;
