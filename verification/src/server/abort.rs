//! The abort handles of `futures`, and the record of which were fired. A
//! handle is fired only through the record, which notes it.

use vstd::prelude::*;
use futures::future::AbortHandle;

verus! {

/// A handle on a task that runs elsewhere. Nothing of the task's state is
/// known here.
#[verifier::external_type_specification]
#[verifier::external_body]
pub struct ExAbortHandle(AbortHandle);

/// Tells the task behind `handle` to stop, with `AbortHandle::abort`. The
/// task ends when it is polled next; nothing comes back.
#[verifier::external_body]
fn abort(handle: &AbortHandle) {
    handle.abort()
}

/// The record of the abort handles that were fired.
pub struct Fired {
    handles: Ghost<Seq<AbortHandle>>,
}

impl Fired {
    /// The handles that were fired, oldest first.
    pub closed spec fn handles(&self) -> Seq<AbortHandle> {
        self.handles@
    }

    /// A record of nothing.
    pub fn new() -> (record: Self)
        ensures
            record.handles() == Seq::<AbortHandle>::empty(),
    {
        Fired { handles: Ghost(Seq::empty()) }
    }

    /// Fires `handle` and notes it.
    pub fn abort(&mut self, handle: &AbortHandle)
        ensures
            final(self).handles() == old(self).handles().push(*handle),
    {
        abort(handle);
        proof {
            self.handles@ = self.handles@.push(*handle);
        }
    }
}

} // verus!
