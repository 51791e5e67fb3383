//! The protocol core of a request/response RPC runtime.
//!
//! On the client, a [`client::channel::Channel`] stages calls for a
//! [`client::channel::RequestDispatch`], which writes request frames to a
//! [`transport::Transport`], tracks the requests in flight, routes each response
//! to the caller that waits for it, and honours cancellation and deadlines. On
//! the server, a [`server::BaseChannel`] reads the frames, bounds the number of
//! handlers that run, aborts those that were cancelled or have expired, and
//! writes the responses. [`wire`] gives the frames a byte encoding.
//!
//! The core is synchronous and deterministic. Every operation is one step from
//! a state to the next; the time is an argument; what a transport answers is
//! the only thing that is not decided here. Whatever is asked of a transport
//! is recorded together with its answer, and every step is a function of the
//! state it starts from and of those answers. Channels between tasks, wakers
//! and timers belong to whoever drives the core.

pub mod client;
pub mod context;
pub mod deadline;
pub mod error;
pub mod id_map;
pub mod message;
pub mod poll;
pub mod server;
pub mod trace;
pub mod transport;
pub mod wire;
