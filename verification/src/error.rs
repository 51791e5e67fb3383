//! The kinds of failure a call, a channel or a dispatcher can meet.

use vstd::prelude::*;

verus! {

/// A coarse classification of failures, shared by both ends of a connection.
#[derive(Debug, Clone, Copy, PartialEq, Eq, Hash, Structural)]
pub enum ErrorKind {
    /// Reading from or writing to the transport failed.
    Transport,
    /// A request could not be staged because the dispatcher is gone.
    Disconnected,
    /// The deadline passed before the response arrived.
    DeadlineExceeded,
    /// The caller stopped waiting for the response.
    Cancelled,
    /// The dispatcher ended while it still held the request.
    ResponseLost,
    /// The server had no capacity left for the request.
    Overloaded,
    /// The handler of the request returned an error.
    Application,
}

/// The error half of a response.
#[derive(Debug, Clone, PartialEq, Eq, Hash)]
pub struct ServerError {
    /// What kind of failure ended the request.
    pub kind: ErrorKind,
    /// A description for people, if there is one.
    pub detail: Option<String>,
}

/// A failure of the transport. Any such failure is fatal to the transport.
#[derive(Debug, Clone, PartialEq, Eq, Hash)]
pub struct TransportError {
    /// A description for people.
    pub detail: String,
}

/// Why a call did not yield a response payload.
#[derive(Debug, Clone, PartialEq, Eq, Hash)]
pub enum CallError {
    /// The request could not be staged: the dispatcher is gone.
    Disconnected,
    /// The response slot was closed without a value.
    ResponseLost,
    /// The deadline passed before a response arrived.
    DeadlineExceeded,
    /// The server answered with an error.
    Server(ServerError),
}

/// Why a dispatcher stopped.
#[derive(Debug, Clone, PartialEq, Eq, Hash)]
pub enum DispatchError {
    /// Reading a response from the transport failed.
    Read(TransportError),
    /// Writing a request or a cancellation to the transport failed.
    Write(TransportError),
    /// A staged request carried the identifier of a request still in flight.
    DuplicateRequestId(u64),
}

impl CallError {
    /// The kind under which this error is reported.
    pub open spec fn spec_kind(self) -> ErrorKind {
        match self {
            CallError::Disconnected => ErrorKind::Disconnected,
            CallError::ResponseLost => ErrorKind::ResponseLost,
            CallError::DeadlineExceeded => ErrorKind::DeadlineExceeded,
            CallError::Server(e) => e.kind,
        }
    }

    /// The kind under which this error is reported.
    pub fn kind(&self) -> (kind: ErrorKind)
        ensures
            kind == self.spec_kind(),
    {
        match self {
            CallError::Disconnected => ErrorKind::Disconnected,
            CallError::ResponseLost => ErrorKind::ResponseLost,
            CallError::DeadlineExceeded => ErrorKind::DeadlineExceeded,
            CallError::Server(e) => e.kind,
        }
    }
}

} // verus!
