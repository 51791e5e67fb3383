//! The outcome of one attempt to make progress.

use vstd::prelude::*;

verus! {

/// Whether a step produced a value or has to be tried again later.
#[derive(Debug, Clone, Copy, PartialEq, Eq)]
pub enum Poll<T> {
    /// The step is through, with this value.
    Ready(T),
    /// Nothing could be done yet.
    Pending,
}

impl<T> Poll<T> {
    /// True exactly for `Ready`.
    pub fn is_ready(&self) -> (ready: bool)
        ensures
            ready == (*self is Ready),
    {
        match self {
            Poll::Ready(_) => true,
            Poll::Pending => false,
        }
    }

    /// True exactly for `Pending`.
    pub fn is_pending(&self) -> (pending: bool)
        ensures
            pending == (*self is Pending),
    {
        match self {
            Poll::Ready(_) => false,
            Poll::Pending => true,
        }
    }
}

} // verus!
