//! The frames exchanged between a client and a server.

use vstd::prelude::*;
use crate::context;
use crate::error::ServerError;
use crate::trace;

verus! {

/// A call, as it travels from the client to the server.
#[derive(Debug, Clone, PartialEq, Eq, Hash)]
pub struct Request<T> {
    /// Correlates the response with this request.
    pub id: u64,
    /// The deadline and trace context of the call.
    pub context: context::Context,
    /// The payload, opaque to the runtime.
    pub message: T,
}

/// A frame sent from the client to the server.
#[derive(Debug, Clone, PartialEq, Eq, Hash)]
pub enum ClientMessage<T> {
    /// Asks the server to run a call.
    Request(Request<T>),
    /// Tells the server that nobody waits any longer for the response to the
    /// request `request_id`.
    Cancel {
        /// The trace context of the cancelled call.
        trace_context: trace::Context,
        /// The request to cancel.
        request_id: u64,
    },
}

/// A frame sent from the server to the client.
#[derive(Debug, PartialEq, Eq, Hash)]
pub struct Response<T> {
    /// The request this frame answers.
    pub request_id: u64,
    /// The payload, or the reason why there is none.
    pub message: Result<T, ServerError>,
}

impl<T> ClientMessage<T> {
    /// The request a frame is about.
    pub open spec fn spec_request_id(self) -> u64 {
        match self {
            ClientMessage::Request(request) => request.id,
            ClientMessage::Cancel { request_id, .. } => request_id,
        }
    }

    /// The request this frame is about.
    pub fn request_id(&self) -> (id: u64)
        ensures
            id == self.spec_request_id(),
    {
        match self {
            ClientMessage::Request(request) => request.id,
            ClientMessage::Cancel { request_id, .. } => *request_id,
        }
    }
}

} // verus!
