//! Distributed-trace metadata carried on every request and cancellation.

use vstd::prelude::*;

verus! {

/// Identifies the trace a call belongs to, the span of the call itself, and the
/// span that caused it.
#[derive(Debug, Clone, Copy, PartialEq, Eq, Hash)]
pub struct Context {
    /// Shared by every call of one trace.
    pub trace_id: u128,
    /// Names this call within the trace.
    pub span_id: u64,
    /// The span that issued this call; `None` at the root of a trace.
    pub parent_id: Option<u64>,
}

/// Asks the operating system for 64 random bits, with `RngCore::try_fill_bytes`
/// on `rand::rngs::OsRng`, which reports a failure of the system's source
/// instead of panicking. `None` stands for that failure. Nothing is claimed
/// of the bits: they differ from call to call.
#[verifier::external_body]
pub(crate) fn random_u64() -> (bits: Option<u64>) {
    let mut bytes = [0u8; 8];
    match rand::RngCore::try_fill_bytes(&mut rand::rngs::OsRng, &mut bytes) {
        Ok(()) => Some(u64::from_le_bytes(bytes)),
        Err(_) => None,
    }
}

/// The trace identifier with `high` as its upper half and `low` as its lower.
pub open spec fn spec_trace_id(high: u64, low: u64) -> u128 {
    ((high as u128) << 64) | (low as u128)
}

/// Joins two halves into a trace identifier.
pub fn trace_id(high: u64, low: u64) -> (id: u128)
    ensures
        id == spec_trace_id(high, low),
{
    ((high as u128) << 64) | (low as u128)
}

impl Context {
    /// The context of a call that starts the trace `trace_id` in span `span_id`.
    pub open spec fn spec_root(trace_id: u128, span_id: u64) -> Context {
        Context { trace_id, span_id, parent_id: None }
    }

    /// The context of a call issued from `self` under the new span `span_id`:
    /// the trace is kept, the caller's span becomes the parent.
    pub open spec fn spec_child(self, span_id: u64) -> Context {
        Context { trace_id: self.trace_id, span_id, parent_id: Some(self.span_id) }
    }

    /// Starts the trace `trace_id` in span `span_id`.
    pub fn root(trace_id: u128, span_id: u64) -> (context: Context)
        ensures
            context == Context::spec_root(trace_id, span_id),
    {
        Context { trace_id, span_id, parent_id: None }
    }

    /// Derives the context of an outbound call under the span `span_id`.
    pub fn child(&self, span_id: u64) -> (context: Context)
        ensures
            context == self.spec_child(span_id),
    {
        Context { trace_id: self.trace_id, span_id, parent_id: Some(self.span_id) }
    }

    /// The trace that three draws of random bits start: the first two make
    /// the trace identifier, the third names the span. Without all three
    /// there is no trace.
    pub open spec fn spec_drawn_root(high: Option<u64>, low: Option<u64>, span_id: Option<u64>) -> Option<Context> {
        match (high, low, span_id) {
            (Some(high), Some(low), Some(span_id)) => Some(Context::spec_root(spec_trace_id(high, low), span_id)),
            _ => None,
        }
    }

    /// Starts a trace from what three draws of random bits gave.
    pub fn drawn_root(high: Option<u64>, low: Option<u64>, span_id: Option<u64>) -> (context: Option<Context>)
        ensures
            context == Context::spec_drawn_root(high, low, span_id),
    {
        match (high, low, span_id) {
            (Some(high), Some(low), Some(span_id)) => Some(Context::root(trace_id(high, low), span_id)),
            _ => None,
        }
    }

    /// Starts a new trace with random identifiers. `None` if the operating
    /// system has no random bits to give.
    pub fn new_root() -> (context: Option<Context>)
        ensures
            context matches Some(context) ==> context.parent_id is None,
    {
        let high = random_u64();
        let low = random_u64();
        let span_id = random_u64();
        Context::drawn_root(high, low, span_id)
    }

    /// Derives the context of an outbound call under a fresh random span.
    /// `None` if the operating system has no random bits to give.
    pub fn new_child(&self) -> (context: Option<Context>)
        ensures
            context matches Some(context) ==> context == self.spec_child(context.span_id),
    {
        match random_u64() {
            Some(span_id) => Some(self.child(span_id)),
            None => None,
        }
    }
}

} // verus!
