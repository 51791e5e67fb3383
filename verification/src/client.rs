//! The client side: the caller-facing channel and the dispatcher behind it.

use vstd::prelude::*;

pub mod channel;
pub mod in_flight_requests;
pub mod lifecycle;
pub mod oneshot;
pub mod pending_requests;
pub mod replay;
pub mod response_slot;
pub mod state;

verus! {

/// Limits that keep a client from using resources without bound.
#[derive(Debug, Clone, Copy, PartialEq, Eq)]
pub struct Config {
    /// How many requests may be in flight at once. Further requests wait in
    /// the pending queue.
    pub max_in_flight_requests: usize,
    /// How many requests may be staged without having been written.
    pub pending_request_buffer: usize,
}

impl Default for Config {
    fn default() -> (config: Config)
        ensures
            config.max_in_flight_requests == 1000,
            config.pending_request_buffer == 100,
    {
        Config { max_in_flight_requests: 1000, pending_request_buffer: 100 }
    }
}

/// A channel and the dispatcher that serves it.
pub struct NewClient<C, D> {
    /// The handle through which calls are made.
    pub client: C,
    /// The dispatcher that has to be driven for the calls to make progress.
    pub dispatch: D,
}

} // verus!
