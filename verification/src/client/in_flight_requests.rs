//! The requests that were written to the transport and still wait for their
//! outcome.

use vstd::prelude::*;
use crate::context::{Context, Timestamp};
use crate::deadline::{expires_first, first_to_expire, is_next_deadline, Expiring};
use crate::id_map::IdMap;
use crate::message::Response;
use crate::poll::Poll;

verus! {

/// What the table keeps for one request.
pub struct RequestData<S> {
    /// The context the request was sent with.
    pub ctx: Context,
    /// The slot through which the response reaches the caller.
    pub response_completion: S,
}

/// A response on its way into the slot of the caller that waits for it.
#[derive(Debug, PartialEq, Eq)]
pub struct Completion<S, Resp> {
    /// The slot of the request that was answered.
    pub response_completion: S,
    /// What the caller is to receive.
    pub response: Response<Resp>,
}

/// Says that a request with the same identifier is in flight already.
#[derive(Debug, Clone, Copy, PartialEq, Eq)]
pub struct AlreadyExistsError;

/// The requests in flight, by identifier, and the deliveries that have been
/// decided and not yet been collected.
pub struct InFlightRequests<S, Resp> {
    request_data: IdMap<RequestData<S>>,
    completed: Vec<Completion<S, Resp>>,
}

impl<S> Expiring for RequestData<S> {
    open spec fn expires_at(&self) -> Timestamp {
        self.ctx.deadline
    }

    fn deadline(&self) -> (deadline: Timestamp) {
        self.ctx.deadline
    }
}

impl<S, Resp> View for InFlightRequests<S, Resp> {
    type V = Map<u64, RequestData<S>>;

    /// The requests in flight.
    closed spec fn view(&self) -> Map<u64, RequestData<S>> {
        self.request_data@
    }
}

impl<S, Resp> InFlightRequests<S, Resp> {
    /// The deliveries decided so far and not yet collected, oldest first.
    pub closed spec fn completed(&self) -> Seq<Completion<S, Resp>> {
        self.completed@
    }

    /// A table without requests and without deliveries.
    pub fn new() -> (table: Self)
        ensures
            table@ == Map::<u64, RequestData<S>>::empty(),
            table.completed() == Seq::<Completion<S, Resp>>::empty(),
    {
        InFlightRequests { request_data: IdMap::new(), completed: Vec::new() }
    }

    /// The number of requests in flight.
    pub fn len(&self) -> (len: usize)
        ensures
            self@.dom().finite(),
            len == self@.len(),
    {
        self.request_data.len()
    }

    /// Whether no request is in flight.
    pub fn is_empty(&self) -> (empty: bool)
        ensures
            self@.dom().finite(),
            empty == (self@.len() == 0),
            empty == (self@ == Map::<u64, RequestData<S>>::empty()),
    {
        let len = self.request_data.len();
        proof {
            if len == 0 {
                assert(self@.dom() =~= Set::<u64>::empty());
                assert(self@ =~= Map::<u64, RequestData<S>>::empty());
            }
        }
        len == 0
    }

    /// Whether the request `request_id` is in flight.
    pub fn contains(&self, request_id: u64) -> (found: bool)
        ensures
            found == self@.contains_key(request_id),
    {
        self.request_data.contains(request_id)
    }

    /// Registers a request that was handed to the transport. Refused if a
    /// request with the same identifier is in flight; the table is then left
    /// as it is.
    pub fn insert_request(&mut self, request_id: u64, ctx: Context, response_completion: S) -> (result: Result<
        (),
        AlreadyExistsError,
    >)
        ensures
            final(self).completed() == old(self).completed(),
            match result {
                Ok(()) => !old(self)@.contains_key(request_id) && final(self)@ == old(self)@.insert(
                    request_id,
                    RequestData { ctx, response_completion },
                ),
                Err(_) => old(self)@.contains_key(request_id) && final(self)@ == old(self)@,
            },
    {
        match self.request_data.insert(request_id, RequestData { ctx, response_completion }) {
            Ok(()) => Ok(()),
            Err(_) => Err(AlreadyExistsError),
        }
    }

    /// Routes a response to the request it answers. If that request is in
    /// flight, it leaves the table and the response is on its way into the
    /// request's slot; the result says whether it was.
    pub fn complete_request(&mut self, response: Response<Resp>) -> (found: bool)
        ensures
            found == old(self)@.contains_key(response.request_id),
            final(self)@ == old(self)@.remove(response.request_id),
            final(self).completed() == if found {
                old(self).completed().push(
                    Completion {
                        response_completion: old(self)@[response.request_id].response_completion,
                        response,
                    },
                )
            } else {
                old(self).completed()
            },
    {
        match self.request_data.remove(response.request_id) {
            Some(data) => {
                self.completed.push(Completion { response_completion: data.response_completion, response });
                true
            },
            None => {
                assert(self@ =~= old(self)@.remove(response.request_id));
                false
            },
        }
    }

    /// Gives up the request `request_id`. If it is in flight, it leaves the
    /// table, its slot is dropped, and its context is returned.
    pub fn cancel_request(&mut self, request_id: u64) -> (ctx: Option<Context>)
        ensures
            final(self)@ == old(self)@.remove(request_id),
            final(self).completed() == old(self).completed(),
            match ctx {
                Some(ctx) => old(self)@.contains_key(request_id) && ctx == old(self)@[request_id].ctx,
                None => !old(self)@.contains_key(request_id),
            },
    {
        match self.request_data.remove(request_id) {
            Some(data) => Some(data.ctx),
            None => {
                assert(self@ =~= old(self)@.remove(request_id));
                None
            },
        }
    }

    /// The deadline that passes first, if any request is in flight: the
    /// earliest moment at which `poll_expired` has something to do.
    pub fn next_deadline(&self) -> (deadline: Option<Timestamp>)
        ensures
            match deadline {
                Some(deadline) => is_next_deadline(self@, deadline),
                None => self@ == Map::<u64, RequestData<S>>::empty(),
            },
    {
        match first_to_expire(&self.request_data) {
            Some(id) => match self.request_data.get(id) {
                Some(data) => {
                    assert(expires_first(self@, id) && self@[id].expires_at() == data.ctx.deadline);
                    Some(data.ctx.deadline)
                },
                None => None,
            },
            None => None,
        }
    }

    /// Ends the request whose deadline has passed at `now` and expires first:
    /// it leaves the table and its slot is dropped. Nothing is delivered: a
    /// slot closed without a value after the deadline is how the caller
    /// learns that the deadline was exceeded. `Ready(None)` says that nothing
    /// is in flight, `Pending` that no deadline has passed yet.
    pub fn poll_expired(&mut self, now: Timestamp) -> (expired: Poll<Option<(u64, Context)>>)
        ensures
            final(self).completed() == old(self).completed(),
            match expired {
                Poll::Ready(Some((id, ctx))) => {
                    &&& expires_first(old(self)@, id)
                    &&& ctx == old(self)@[id].ctx
                    &&& ctx.deadline.spec_elapsed(now)
                    &&& final(self)@ == old(self)@.remove(id)
                },
                Poll::Ready(None) => {
                    &&& old(self)@ == Map::<u64, RequestData<S>>::empty()
                    &&& final(self)@ == old(self)@
                },
                Poll::Pending => {
                    &&& exists|id: u64|
                        expires_first(old(self)@, id) && !old(self)@[id].ctx.deadline.spec_elapsed(now)
                    &&& final(self)@ == old(self)@
                },
            },
    {
        let id = match first_to_expire(&self.request_data) {
            Some(id) => id,
            None => {
                return Poll::Ready(None);
            },
        };
        let elapsed = match self.request_data.get(id) {
            Some(data) => data.ctx.deadline.elapsed(now),
            None => false,
        };
        if !elapsed {
            return Poll::Pending;
        }
        match self.request_data.remove(id) {
            Some(data) => Poll::Ready(Some((id, data.ctx))),
            None => Poll::Pending,
        }
    }

    /// Takes some request out of the table, unless the table is empty.
    pub fn pop(&mut self) -> (entry: Option<(u64, RequestData<S>)>)
        ensures
            final(self).completed() == old(self).completed(),
            match entry {
                Some((id, data)) => old(self)@.contains_key(id) && data == old(self)@[id] && final(self)@ == old(self)@.remove(
                    id,
                ),
                None => old(self)@ == Map::<u64, RequestData<S>>::empty() && final(self)@ == old(self)@,
            },
    {
        self.request_data.pop()
    }

    /// Hands out the deliveries decided since the last call, oldest first.
    pub fn take_completed(&mut self) -> (completed: Vec<Completion<S, Resp>>)
        ensures
            completed@ == old(self).completed(),
            final(self).completed() == Seq::<Completion<S, Resp>>::empty(),
            final(self)@ == old(self)@,
    {
        let mut completed: Vec<Completion<S, Resp>> = Vec::new();
        std::mem::swap(&mut completed, &mut self.completed);
        completed
    }
}

} // verus!
