//! Deterministic simulation runtime: a seedable random source, a mock clock, a
//! timer wheel, a cooperative executor and an in-memory network, all driven by
//! one 64-bit seed so that a whole execution can be replayed exactly.
//!
//! The runtime holds no tasks and performs no I/O. Tasks are numbers: the
//! executor names the task to poll, and whatever polls it tells the executor
//! how the poll ended. Whoever waits (for a deadline, a connection, bytes, the
//! completion of a task) does so by being noted as the task to wake.
//!
//! Every type comes with its mathematical value (a `...State` struct, reached
//! with `@`), and every operation says what it returns and what it leaves as
//! functions of that value. [`replay`] states what holds of whole runs.

pub mod error;
pub mod time;
pub mod rng;
pub mod heap;
pub mod timer;
pub mod executor;
pub mod poll;
pub mod fault;
pub mod delay;
pub mod net;
pub mod deterministic;
pub mod join;
pub mod replay;

pub use crate::error::{Elapsed, Error, IoError};
pub use crate::join::spawn_with_result;
pub use crate::poll::Poll;
