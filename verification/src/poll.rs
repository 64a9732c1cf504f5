//! The answer of an operation that may have to wait.

use vstd::prelude::*;

verus! {

/// Either the result, or the news that the caller has to wait and will be
/// woken.
#[derive(Debug, PartialEq, Eq)]
pub enum Poll<T> {
    Ready(T),
    Pending,
}

impl<T> Poll<T> {
    pub fn is_ready(&self) -> (b: bool)
        ensures
            b == (self is Ready),
    {
        match self {
            Poll::Ready(_) => true,
            Poll::Pending => false,
        }
    }

    pub fn is_pending(&self) -> (b: bool)
        ensures
            b == (self is Pending),
    {
        match self {
            Poll::Ready(_) => false,
            Poll::Pending => true,
        }
    }
}

} // verus!
