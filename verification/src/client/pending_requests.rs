//! The requests that were staged and not yet written.

use vstd::prelude::*;
use crate::client::channel::DispatchRequest;
use crate::poll::Poll;

verus! {

/// Why a request was not staged. The request is handed back.
#[derive(Debug, PartialEq, Eq)]
pub enum PushError<T> {
    /// As many requests are staged as there may be.
    Full(T),
    /// Nothing is staged any more: the queue was closed.
    Closed(T),
}

/// A staged request, and whether the caller has closed its response slot.
#[derive(Debug, PartialEq, Eq)]
pub struct Staged<Req, S> {
    /// The request.
    pub request: DispatchRequest<Req, S>,
    /// Whether the caller has stopped waiting for the response.
    pub response_closed: bool,
}

/// The bounded queue between the channels and the dispatcher.
#[derive(Debug)]
pub struct PendingRequests<Req, S> {
    staged: Vec<Staged<Req, S>>,
    bound: usize,
    closed: bool,
}

/// The position of the first request of `staged` whose slot is open; the
/// length of `staged` if there is none.
pub open spec fn first_open<Req, S>(staged: Seq<Staged<Req, S>>) -> int
    decreases staged.len(),
{
    if staged.len() == 0 {
        0
    } else if !staged[0].response_closed {
        0
    } else {
        1 + first_open(staged.skip(1))
    }
}

/// `staged` after the slots of all requests named `request_id` were closed.
pub open spec fn close_slots<Req, S>(staged: Seq<Staged<Req, S>>, request_id: u64) -> Seq<Staged<Req, S>> {
    Seq::new(
        staged.len(),
        |i: int|
            Staged {
                request: staged[i].request,
                response_closed: staged[i].response_closed || staged[i].request.request_id == request_id,
            },
    )
}

/// `staged` after the slots were closed of which `closed` says so, position by
/// position. A slot that is closed stays closed.
pub open spec fn close_where<Req, S>(staged: Seq<Staged<Req, S>>, closed: Seq<bool>) -> Seq<Staged<Req, S>> {
    Seq::new(
        staged.len(),
        |i: int|
            Staged {
                request: staged[i].request,
                response_closed: staged[i].response_closed || (i < closed.len() && closed[i]),
            },
    )
}

/// Everything before the first open slot is closed, and the position lies
/// within the queue or right behind it.
pub proof fn lemma_first_open<Req, S>(staged: Seq<Staged<Req, S>>)
    ensures
        0 <= first_open(staged) <= staged.len(),
        forall|i: int| 0 <= i < first_open(staged) ==> (#[trigger] staged[i]).response_closed,
        first_open(staged) < staged.len() ==> !staged[first_open(staged)].response_closed,
    decreases staged.len(),
{
    if staged.len() > 0 && staged[0].response_closed {
        let rest = staged.skip(1);
        lemma_first_open(rest);
        assert forall|i: int| 0 <= i < first_open(staged) implies (#[trigger] staged[i]).response_closed by {
            if i > 0 {
                assert(staged[i] == rest[i - 1]);
            }
        }
        if first_open(rest) < rest.len() {
            assert(staged[first_open(staged)] == rest[first_open(rest)]);
        }
    }
}

impl<Req, S> View for PendingRequests<Req, S> {
    type V = Seq<Staged<Req, S>>;

    /// The staged requests, oldest first.
    closed spec fn view(&self) -> Seq<Staged<Req, S>> {
        self.staged@
    }
}

impl<Req, S> PendingRequests<Req, S> {
    /// The largest number of requests that may be staged at once.
    pub closed spec fn bound(&self) -> usize {
        self.bound
    }

    /// Whether every channel is gone: nothing will be staged any more.
    pub closed spec fn closed(&self) -> bool {
        self.closed
    }

    /// An open, empty queue for at most `bound` requests.
    pub fn new(bound: usize) -> (queue: Self)
        ensures
            queue@ == Seq::<Staged<Req, S>>::empty(),
            queue.bound() == bound,
            !queue.closed(),
    {
        PendingRequests { staged: Vec::new(), bound, closed: false }
    }

    /// Stages `request` with its slot open, unless the queue is closed or full.
    pub fn push(&mut self, request: DispatchRequest<Req, S>) -> (result: Result<(), PushError<DispatchRequest<Req, S>>>)
        ensures
            final(self).bound() == old(self).bound(),
            final(self).closed() == old(self).closed(),
            match result {
                Ok(()) => !old(self).closed() && old(self)@.len() < old(self).bound() && final(self)@ == old(self)@.push(Staged { request, response_closed: false }),
                Err(PushError::Closed(back)) => old(self).closed() && back == request && final(self)@ == old(self)@,
                Err(PushError::Full(back)) => !old(self).closed() && old(self)@.len() >= old(self).bound() && back
                    == request && final(self)@ == old(self)@,
            },
    {
        if self.closed {
            return Err(PushError::Closed(request));
        }
        if self.staged.len() >= self.bound {
            return Err(PushError::Full(request));
        }
        self.staged.push(Staged { request, response_closed: false });
        Ok(())
    }

    /// Records that the caller of `request_id` has closed its response slot.
    pub fn close_response(&mut self, request_id: u64)
        ensures
            final(self).bound() == old(self).bound(),
            final(self).closed() == old(self).closed(),
            final(self)@ == close_slots(old(self)@, request_id),
    {
        let mut index: usize = 0;
        while index < self.staged.len()
            invariant
                index <= self.staged@.len(),
                self.staged@.len() == old(self).staged@.len(),
                self.bound == old(self).bound,
                self.closed == old(self).closed,
                forall|i: int| 0 <= i < index ==> self.staged@[i] == close_slots(old(self).staged@, request_id)[i],
                forall|i: int| index <= i < self.staged@.len() ==> self.staged@[i] == old(self).staged@[i],
            decreases self.staged@.len() - index,
        {
            if self.staged[index].request.request_id == request_id {
                self.staged[index].response_closed = true;
            }
            index += 1;
        }
        assert(self.staged@ =~= close_slots(old(self).staged@, request_id));
    }

    /// The response slot of the request at position `index`, if that many
    /// requests are staged.
    pub fn slot_at(&self, index: usize) -> (slot: Option<&S>)
        ensures
            match slot {
                Some(slot) => index < self@.len() && *slot == self@[index as int].request.response_completion,
                None => index >= self@.len(),
            },
    {
        if index < self.staged.len() {
            Some(&self.staged[index].request.response_completion)
        } else {
            None
        }
    }

    /// Records, position by position, which response slots were found
    /// closed.
    pub fn close_where(&mut self, closed: &Vec<bool>)
        ensures
            final(self).bound() == old(self).bound(),
            final(self).closed() == old(self).closed(),
            final(self)@ == close_where(old(self)@, closed@),
    {
        let mut index: usize = 0;
        while index < self.staged.len() && index < closed.len()
            invariant
                index <= self.staged@.len(),
                self.staged@.len() == old(self).staged@.len(),
                self.bound == old(self).bound,
                self.closed == old(self).closed,
                forall|i: int| 0 <= i < index ==> self.staged@[i] == close_where(old(self).staged@, closed@)[i],
                forall|i: int| index <= i < self.staged@.len() ==> self.staged@[i] == old(self).staged@[i],
            decreases self.staged@.len() - index,
        {
            if closed[index] {
                self.staged[index].response_closed = true;
            }
            index += 1;
        }
        assert(self.staged@ =~= close_where(old(self).staged@, closed@));
    }

    /// Records that every channel is gone. What is staged can still be taken.
    pub fn close(&mut self)
        ensures
            final(self)@ == old(self)@,
            final(self).bound() == old(self).bound(),
            final(self).closed(),
    {
        self.closed = true;
    }

    /// Takes the oldest staged request. `Ready(None)` says that the queue is
    /// closed and empty, `Pending` that it is empty but may still be filled.
    pub fn poll_recv(&mut self) -> (next: Poll<Option<Staged<Req, S>>>)
        ensures
            final(self).bound() == old(self).bound(),
            final(self).closed() == old(self).closed(),
            match next {
                Poll::Ready(Some(staged)) => old(self)@.len() > 0 && staged == old(self)@[0] && final(self)@ == old(self)@.skip(1),
                Poll::Ready(None) => old(self)@.len() == 0 && old(self).closed() && final(self)@ == old(self)@,
                Poll::Pending => old(self)@.len() == 0 && !old(self).closed() && final(self)@ == old(self)@,
            },
    {
        if self.staged.len() > 0 {
            let staged = self.staged.remove(0);
            assert(self.staged@ =~= old(self).staged@.skip(1));
            Poll::Ready(Some(staged))
        } else if self.closed {
            Poll::Ready(None)
        } else {
            Poll::Pending
        }
    }

    /// How many requests are staged.
    pub fn len(&self) -> (len: usize)
        ensures
            len == self@.len(),
    {
        self.staged.len()
    }

    /// Whether every channel is gone.
    pub fn is_closed(&self) -> (closed: bool)
        ensures
            closed == self.closed(),
    {
        self.closed
    }
}

} // verus!
