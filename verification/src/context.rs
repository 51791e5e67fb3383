//! What accompanies every call: its deadline and its trace context.

use vstd::prelude::*;
use crate::trace;

verus! {

/// Nanoseconds granted to a call whose caller names no deadline.
pub const DEFAULT_TIMEOUT_NANOS: u64 = 10_000_000_000;

/// An absolute point in time, in nanoseconds since the Unix epoch.
#[derive(Debug, Clone, Copy, PartialEq, Eq, Hash)]
pub struct Timestamp {
    pub nanos: u64,
}

impl Timestamp {
    /// The point `nanos` nanoseconds after this one, or the latest point that
    /// can be written if that lies beyond it.
    pub open spec fn spec_after(self, nanos: u64) -> Timestamp {
        if self.nanos + nanos <= u64::MAX {
            Timestamp { nanos: (self.nanos + nanos) as u64 }
        } else {
            Timestamp { nanos: u64::MAX }
        }
    }

    /// Whether a deadline at this point has passed once the clock shows `now`.
    pub open spec fn spec_elapsed(self, now: Timestamp) -> bool {
        self.nanos <= now.nanos
    }

    /// The point `nanos` nanoseconds after the Unix epoch.
    pub fn from_nanos(nanos: u64) -> (t: Timestamp)
        ensures
            t.nanos == nanos,
    {
        Timestamp { nanos }
    }

    /// The point `nanos` nanoseconds after this one; the latest point that
    /// can be written if that lies beyond it.
    pub fn after(&self, nanos: u64) -> (t: Timestamp)
        ensures
            t == self.spec_after(nanos),
    {
        match self.nanos.checked_add(nanos) {
            Some(sum) => Timestamp { nanos: sum },
            None => Timestamp { nanos: u64::MAX },
        }
    }

    /// Whether a deadline at this point has passed once the clock shows `now`.
    /// A deadline passes at its own instant.
    pub fn elapsed(&self, now: Timestamp) -> (elapsed: bool)
        ensures
            elapsed == self.spec_elapsed(now),
    {
        self.nanos <= now.nanos
    }
}

/// The deadline of a call and its place in a trace.
#[derive(Debug, Clone, Copy, PartialEq, Eq, Hash)]
pub struct Context {
    /// When the caller stops waiting for the response.
    pub deadline: Timestamp,
    /// Trace metadata, rewritten on every outbound call.
    pub trace_context: trace::Context,
}

impl Context {
    /// The default deadline of a call made at `now`.
    pub open spec fn spec_default_deadline(now: Timestamp) -> Timestamp {
        now.spec_after(DEFAULT_TIMEOUT_NANOS)
    }

    /// The context of a call made at `now` within `trace_context`, with the
    /// default deadline.
    pub fn with_trace(now: Timestamp, trace_context: trace::Context) -> (ctx: Context)
        ensures
            ctx.deadline == Context::spec_default_deadline(now),
            ctx.trace_context == trace_context,
    {
        Context { deadline: now.after(DEFAULT_TIMEOUT_NANOS), trace_context }
    }

    /// The trace this call belongs to.
    pub fn trace_id(&self) -> (trace_id: u128)
        ensures
            trace_id == self.trace_context.trace_id,
    {
        self.trace_context.trace_id
    }
}

/// The context of a call made at `now` that starts a new trace, with the
/// default deadline. `None` if the operating system has no random bits to
/// name the trace with.
pub fn current(now: Timestamp) -> (ctx: Option<Context>)
    ensures
        ctx matches Some(ctx) ==> ctx.deadline == Context::spec_default_deadline(now)
            && ctx.trace_context.parent_id is None,
{
    match trace::Context::new_root() {
        Some(trace_context) => Some(Context::with_trace(now, trace_context)),
        None => None,
    }
}

} // verus!
