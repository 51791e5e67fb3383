//! The dispatcher as a mathematical object: its state, and what each of its
//! steps does to it.

use vstd::prelude::*;
use crate::client::channel::DispatchRequest;
use crate::client::in_flight_requests::{Completion, RequestData};
use crate::deadline::expires_first;
use crate::client::pending_requests::{close_slots, close_where, first_open, Staged};
use crate::client::Config;
use crate::context::{Context, Timestamp};
use crate::error::DispatchError;
use crate::message::{ClientMessage, Request, Response};
use crate::poll::Poll;

verus! {

/// The outcome of one step of the dispatcher: `Ready(Some(Ok(_)))` says that
/// something was done, `Ready(None)` that the source is exhausted for good,
/// `Pending` that nothing can be done before something else happens.
pub type PollIo<T> = Poll<Option<Result<T, DispatchError>>>;

/// Everything a dispatcher holds, as plain mathematical values.
#[verifier::ext_equal]
pub struct DispatchState<Req, Resp, S> {
    /// The limits the dispatcher was made with.
    pub config: Config,
    /// The requests staged and not yet written, oldest first.
    pub pending: Seq<Staged<Req, S>>,
    /// Whether every channel is gone.
    pub pending_closed: bool,
    /// How many requests may be staged at once.
    pub pending_bound: usize,
    /// The cancellations staged and not yet processed, oldest first.
    pub canceled: Seq<u64>,
    /// Whether no cancellation will follow.
    pub canceled_closed: bool,
    /// The requests written and not yet settled.
    pub in_flight: Map<u64, RequestData<S>>,
    /// The deliveries decided and not yet collected, oldest first.
    pub completed: Seq<Completion<S, Resp>>,
    /// The frames the transport has accepted, oldest first.
    pub sent: Seq<ClientMessage<Req>>,
    /// The frames the transport has yielded, oldest first.
    pub received: Seq<Response<Resp>>,
    /// Whether the transport has promised to accept one more frame.
    pub writable: bool,
    /// Whether the inbound stream has ended.
    pub done: bool,
}

/// The frame that carries the staged request `request`.
pub open spec fn request_frame<Req, S>(request: DispatchRequest<Req, S>) -> ClientMessage<Req> {
    ClientMessage::Request(
        Request {
            id: request.request_id,
            context: Context { deadline: request.ctx.deadline, trace_context: request.ctx.trace_context },
            message: request.request,
        },
    )
}

/// The frame that tells the server that the request `request_id`, sent with
/// the context `ctx`, was given up.
pub open spec fn cancel_frame<Req>(ctx: Context, request_id: u64) -> ClientMessage<Req> {
    ClientMessage::Cancel { trace_context: ctx.trace_context, request_id }
}

/// What the table keeps for the staged request `request`.
pub open spec fn request_data<Req, S>(request: DispatchRequest<Req, S>) -> RequestData<S> {
    RequestData { ctx: request.ctx, response_completion: request.response_completion }
}

/// The position of the first identifier of `canceled` that is in flight; the
/// length of `canceled` if there is none.
pub open spec fn first_live<S>(canceled: Seq<u64>, in_flight: Map<u64, RequestData<S>>) -> int
    decreases canceled.len(),
{
    if canceled.len() == 0 {
        0
    } else if in_flight.contains_key(canceled[0]) {
        0
    } else {
        1 + first_live(canceled.skip(1), in_flight)
    }
}

/// Everything before the first live cancellation names a request that is not
/// in flight, and the position lies within the queue or right behind it.
pub proof fn lemma_first_live<S>(canceled: Seq<u64>, in_flight: Map<u64, RequestData<S>>)
    ensures
        0 <= first_live(canceled, in_flight) <= canceled.len(),
        forall|i: int| 0 <= i < first_live(canceled, in_flight) ==> !in_flight.contains_key(#[trigger] canceled[i]),
        first_live(canceled, in_flight) < canceled.len() ==> in_flight.contains_key(
            canceled[first_live(canceled, in_flight)],
        ),
    decreases canceled.len(),
{
    if canceled.len() > 0 && !in_flight.contains_key(canceled[0]) {
        let rest = canceled.skip(1);
        lemma_first_live(rest, in_flight);
        assert forall|i: int| 0 <= i < first_live(canceled, in_flight) implies !in_flight.contains_key(
            #[trigger] canceled[i],
        ) by {
            if i > 0 {
                assert(canceled[i] == rest[i - 1]);
            }
        }
        if first_live(rest, in_flight) < rest.len() {
            assert(canceled[first_live(canceled, in_flight)] == rest[first_live(rest, in_flight)]);
        }
    }
}

/// Taking a request out of the table never makes the table larger.
pub proof fn lemma_remove_len<S>(in_flight: Map<u64, RequestData<S>>, id: u64)
    requires
        in_flight.dom().finite(),
    ensures
        in_flight.remove(id).dom().finite(),
        in_flight.remove(id).len() <= in_flight.len(),
        in_flight.contains_key(id) ==> in_flight.remove(id).len() + 1 == in_flight.len(),
        !in_flight.contains_key(id) ==> in_flight.remove(id) == in_flight,
{
    if in_flight.contains_key(id) {
        in_flight.lemma_remove_key_len(id);
    } else {
        assert(in_flight.remove(id) =~= in_flight);
    }
}

impl<Req, Resp, S> DispatchState<Req, Resp, S> {
    /// The state of a dispatcher that was just made with `config`.
    pub open spec fn initial(config: Config) -> Self {
        DispatchState {
            config,
            pending: Seq::empty(),
            pending_closed: false,
            pending_bound: config.pending_request_buffer,
            canceled: Seq::empty(),
            canceled_closed: false,
            in_flight: Map::empty(),
            completed: Seq::empty(),
            sent: Seq::empty(),
            received: Seq::empty(),
            writable: false,
            done: false,
        }
    }

    /// The number of requests in flight does not exceed the configured limit.
    pub open spec fn within_limit(self) -> bool {
        self.in_flight.dom().finite() && self.in_flight.len() <= self.config.max_in_flight_requests
    }

    /// No further request may be written before one in flight is settled.
    pub open spec fn at_capacity(self) -> bool {
        self.in_flight.len() >= self.config.max_in_flight_requests
    }

    /// The staged request that is written next, if there is one: the oldest
    /// whose response slot is open.
    pub open spec fn next_request(self) -> Option<DispatchRequest<Req, S>> {
        let k = first_open(self.pending);
        if k < self.pending.len() {
            Some(self.pending[k].request)
        } else {
            None
        }
    }

    /// What stays staged once the next request was taken: everything behind
    /// it. The requests before it had their slots closed and are dropped.
    pub open spec fn pending_rest(self) -> Seq<Staged<Req, S>> {
        let k = first_open(self.pending);
        if k < self.pending.len() {
            self.pending.skip(k + 1)
        } else {
            Seq::empty()
        }
    }

    /// The cancellation that is processed next, if there is one: the oldest
    /// that names a request in flight.
    pub open spec fn next_cancellation(self) -> Option<u64> {
        let k = first_live(self.canceled, self.in_flight);
        if k < self.canceled.len() {
            Some(self.canceled[k])
        } else {
            None
        }
    }

    /// What stays of the cancellations once the next one was taken. The ones
    /// before it named requests that were settled already and are dropped.
    pub open spec fn canceled_rest(self) -> Seq<u64> {
        let k = first_live(self.canceled, self.in_flight);
        if k < self.canceled.len() {
            self.canceled.skip(k + 1)
        } else {
            Seq::empty()
        }
    }

    /// Whether a deadline has passed at `now`.
    pub open spec fn expiry_due(self, now: Timestamp) -> bool {
        exists|id: u64| expires_first(self.in_flight, id) && self.in_flight[id].ctx.deadline.spec_elapsed(now)
    }

    /// The state after `request` was staged.
    pub open spec fn stage(self, request: DispatchRequest<Req, S>) -> Self {
        DispatchState { pending: self.pending.push(Staged { request, response_closed: false }), ..self }
    }

    /// The state after the caller of `request_id` closed its response slot.
    pub open spec fn close_response(self, request_id: u64) -> Self {
        DispatchState { pending: close_slots(self.pending, request_id), ..self }
    }

    /// The state after the slots of the staged requests were looked at and
    /// `closed` says, position by position, which were found closed.
    pub open spec fn observe(self, closed: Seq<bool>) -> Self {
        DispatchState { pending: close_where(self.pending, closed), ..self }
    }

    /// The state after `request` was staged with its slot found closed or
    /// open: a request whose caller has given up is staged as given up.
    pub open spec fn stage_as(self, request: DispatchRequest<Req, S>, closed: bool) -> Self {
        if closed {
            self.stage(request).close_response(request.request_id)
        } else {
            self.stage(request)
        }
    }

    /// The state after the caller of `request_id` gave the call up: the
    /// slot is closed first, the cancellation staged after that.
    pub open spec fn abandon(self, request_id: u64) -> Self {
        self.close_response(request_id).cancel(request_id)
    }

    /// The state after the cancellation of `request_id` was staged.
    pub open spec fn cancel(self, request_id: u64) -> Self {
        if self.canceled_closed {
            self
        } else {
            DispatchState { canceled: self.canceled.push(request_id), ..self }
        }
    }

    /// The state after the response `response` was routed: the request it
    /// answers, if in flight, is settled, and the response is on its way into
    /// that request's slot. A response to an unknown request changes nothing.
    pub open spec fn complete(self, response: Response<Resp>) -> Self {
        if self.in_flight.contains_key(response.request_id) {
            DispatchState {
                in_flight: self.in_flight.remove(response.request_id),
                completed: self.completed.push(
                    Completion {
                        response_completion: self.in_flight[response.request_id].response_completion,
                        response,
                    },
                ),
                ..self
            }
        } else {
            self
        }
    }

    /// Whether `after` differs from `self` at most in the transport's promise
    /// to accept a frame.
    pub open spec fn same_but_writable(self, after: Self) -> bool {
        after == DispatchState { writable: after.writable, ..self }
    }

    /// Whether `after` is `self` with the next request taken from the queue.
    pub open spec fn took_request(self, after: Self) -> bool {
        after == DispatchState { pending: self.pending_rest(), writable: after.writable, ..self }
    }

    /// Whether `after` is `self` with the next cancellation taken from the
    /// queue and the request it names taken out of the table.
    pub open spec fn took_cancellation(self, after: Self) -> bool {
        after == DispatchState {
            canceled: self.canceled_rest(),
            in_flight: match self.next_cancellation() {
                Some(id) => self.in_flight.remove(id),
                None => self.in_flight,
            },
            writable: after.writable,
            ..self
        }
    }

    /// Whether `after` is `self` with the request `request` written: its frame
    /// was accepted by the transport and it is in flight.
    pub open spec fn wrote_request(self, after: Self, request: DispatchRequest<Req, S>) -> bool {
        &&& !self.in_flight.contains_key(request.request_id)
        &&& after == DispatchState {
            in_flight: self.in_flight.insert(request.request_id, request_data(request)),
            sent: self.sent.push(request_frame(request)),
            writable: false,
            ..self
        }
    }

    /// Whether `after` is `self` with the cancellation of `request_id`, sent
    /// with the context `ctx`, written.
    pub open spec fn wrote_cancel(self, after: Self, ctx: Context, request_id: u64) -> bool {
        after == DispatchState { sent: self.sent.push(cancel_frame(ctx, request_id)), writable: false, ..self }
    }

    /// Whether `after` is `self` with the request that expires first settled
    /// by its deadline: it left the table and its slot was dropped. Nothing
    /// is delivered and nothing is sent.
    pub open spec fn expired(self, after: Self, now: Timestamp) -> bool {
        exists|id: u64|
            {
                &&& expires_first(self.in_flight, id)
                &&& self.in_flight[id].ctx.deadline.spec_elapsed(now)
                &&& after == DispatchState { in_flight: self.in_flight.remove(id), ..self }
            }
    }

    /// The request stage of a write pump, as far as it shows in what is left
    /// of the queue `pending`: either the queue was not touched, or it held no
    /// request with an open slot and was emptied.
    pub open spec fn request_stage_passed(self, pending: Seq<Staged<Req, S>>) -> bool {
        ||| pending == self.pending
        ||| (!self.at_capacity() && self.next_request() is None && pending == Seq::<Staged<Req, S>>::empty())
    }

    /// The cancellation stage of a write pump, as far as it shows in what is
    /// left of the queue `canceled`: either the queue was not touched, or it
    /// named no request in flight and was emptied.
    pub open spec fn cancel_stage_passed(self, canceled: Seq<u64>) -> bool {
        ||| canceled == self.canceled
        ||| (self.next_cancellation() is None && canceled == Seq::<u64>::empty())
    }

    /// What the queue of staged requests yields: the next request; the end if
    /// there is none and every channel is gone; else nothing yet.
    pub open spec fn request_answer(self) -> PollIo<DispatchRequest<Req, S>> {
        match self.next_request() {
            Some(request) => Poll::Ready(Some(Ok(request))),
            None => if self.pending_closed {
                Poll::Ready(None)
            } else {
                Poll::Pending
            },
        }
    }

    /// What the queue of cancellations yields: the next cancellation with the
    /// context of the request it names; the end if there is none and no
    /// cancellation will follow; else nothing yet.
    pub open spec fn cancellation_answer(self) -> PollIo<(Context, u64)> {
        match self.next_cancellation() {
            Some(id) => Poll::Ready(Some(Ok((self.in_flight[id].ctx, id)))),
            None => if self.canceled_closed {
                Poll::Ready(None)
            } else {
                Poll::Pending
            },
        }
    }

    /// What `poll_next_request` does: at capacity nothing; with a transport
    /// that is not ready nothing but asking it; else it takes the next request
    /// from the queue.
    pub open spec fn polled_request(self, after: Self, next: PollIo<DispatchRequest<Req, S>>) -> bool {
        if self.at_capacity() {
            after == self && next is Pending
        } else if after.writable {
            &&& self.took_request(after)
            &&& next == self.request_answer()
        } else {
            &&& self.same_but_writable(after)
            &&& (next is Pending || next matches Poll::Ready(Some(Err(DispatchError::Write(_)))))
        }
    }

    /// What `poll_next_cancellation` does: with a transport that is not ready
    /// nothing but asking it; else it takes the next cancellation from the
    /// queue and the request it names out of the table.
    pub open spec fn polled_cancellation(self, after: Self, next: PollIo<(Context, u64)>) -> bool {
        if after.writable {
            &&& self.took_cancellation(after)
            &&& next == self.cancellation_answer()
        } else {
            &&& self.same_but_writable(after)
            &&& (next is Pending || next matches Poll::Ready(Some(Err(DispatchError::Write(_)))))
        }
    }

    /// What `pump_read` does: it routes one response, or notes the end of the
    /// inbound stream, or changes nothing.
    pub open spec fn pumped_read(self, after: Self, read: PollIo<()>) -> bool {
        &&& (self.done ==> (read matches Poll::Ready(None)))
        &&& match read {
            Poll::Ready(Some(Ok(_))) => {
                &&& after.received.len() == self.received.len() + 1
                &&& after == DispatchState {
                    received: self.received.push(after.received.last()),
                    ..self.complete(after.received.last())
                }
            },
            Poll::Ready(None) => after == DispatchState { done: true, ..self },
            Poll::Ready(Some(Err(e))) => e is Read && after == self,
            Poll::Pending => after == self,
        }
    }

    /// What `pump_write` does. It makes progress by exactly one of three
    /// things, tried in this order: writing the next request, writing the
    /// next cancellation, settling the request whose deadline has passed.
    /// It is through for good once both queues are closed and exhausted.
    pub open spec fn pumped_write(self, after: Self, now: Timestamp, wrote: PollIo<()>) -> bool {
        match wrote {
            Poll::Ready(Some(Ok(_))) => {
                ||| {
                    &&& !self.at_capacity()
                    &&& self.next_request() matches Some(request)
                    &&& DispatchState { pending: self.pending_rest(), ..self }.wrote_request(after, request)
                }
                ||| {
                    &&& self.request_stage_passed(after.pending)
                    &&& self.next_cancellation() matches Some(id)
                    &&& DispatchState {
                        pending: after.pending,
                        canceled: self.canceled_rest(),
                        in_flight: self.in_flight.remove(id),
                        ..self
                    }.wrote_cancel(after, self.in_flight[id].ctx, id)
                }
                ||| {
                    &&& self.request_stage_passed(after.pending)
                    &&& self.cancel_stage_passed(after.canceled)
                    &&& DispatchState {
                        pending: after.pending,
                        canceled: after.canceled,
                        writable: after.writable,
                        ..self
                    }.expired(after, now)
                }
            },
            Poll::Ready(None) => {
                &&& self.pending_closed && self.canceled_closed
                &&& !self.at_capacity() && self.next_request() is None
                &&& self.next_cancellation() is None
                &&& !self.expiry_due(now)
                &&& after == DispatchState { pending: Seq::empty(), canceled: Seq::empty(), writable: false, ..self }
            },
            Poll::Pending => {
                &&& self.request_stage_passed(after.pending)
                &&& self.cancel_stage_passed(after.canceled)
                &&& !self.expiry_due(now)
                &&& after == DispatchState {
                    pending: after.pending,
                    canceled: after.canceled,
                    writable: after.writable,
                    ..self
                }
            },
            Poll::Ready(Some(Err(DispatchError::DuplicateRequestId(id)))) => {
                &&& !self.at_capacity()
                &&& self.next_request() matches Some(request)
                &&& request.request_id == id
                &&& self.in_flight.contains_key(id)
                &&& after == DispatchState { pending: self.pending_rest(), writable: after.writable, ..self }
            },
            Poll::Ready(Some(Err(DispatchError::Write(_)))) => {
                &&& self.request_stage_passed(after.pending) || after.pending == self.pending_rest()
                &&& self.cancel_stage_passed(after.canceled) || after.canceled == self.canceled_rest()
                &&& after.in_flight == self.in_flight || (self.next_cancellation() matches Some(id)
                    && after.in_flight == self.in_flight.remove(id))
                &&& after == DispatchState {
                    pending: after.pending,
                    canceled: after.canceled,
                    in_flight: after.in_flight,
                    writable: after.writable,
                    ..self
                }
            },
            Poll::Ready(Some(Err(DispatchError::Read(_)))) => false,
        }
    }

    /// How one turn of the dispatcher ends, given what its read pump and its
    /// write pump reported and whether anything is still in flight: `Ready(None)`
    /// once the inbound stream has ended, or once the queues are exhausted for
    /// good and nothing is in flight; `Ready(Some(Ok(_)))` if there was
    /// progress, so that another turn is due at once; else `Pending`.
    pub open spec fn turn_outcome(read: PollIo<()>, wrote: PollIo<()>, idle: bool) -> PollIo<()> {
        match (read, wrote) {
            (Poll::Ready(Some(Err(e))), _) => Poll::Ready(Some(Err(e))),
            (_, Poll::Ready(Some(Err(e)))) => Poll::Ready(Some(Err(e))),
            (Poll::Ready(None), _) => Poll::Ready(None),
            (Poll::Ready(Some(Ok(_))), Poll::Ready(None)) => if idle {
                Poll::Ready(None)
            } else {
                Poll::Ready(Some(Ok(())))
            },
            (Poll::Pending, Poll::Ready(None)) => if idle {
                Poll::Ready(None)
            } else {
                Poll::Pending
            },
            (Poll::Ready(Some(Ok(_))), _) => Poll::Ready(Some(Ok(()))),
            (_, Poll::Ready(Some(Ok(_)))) => Poll::Ready(Some(Ok(()))),
            (Poll::Pending, Poll::Pending) => Poll::Pending,
        }
    }

    /// Whether a step ended in an error.
    pub open spec fn failed(step: PollIo<()>) -> bool {
        step matches Poll::Ready(Some(Err(_)))
    }

    /// Whether a turn that leads from `self` to `after` went through `mid`
    /// with the read pump reporting `read` and the write pump `wrote`.
    pub open spec fn turned(
        self,
        mid: Self,
        read: PollIo<()>,
        wrote: PollIo<()>,
        after: Self,
        now: Timestamp,
        outcome: PollIo<()>,
    ) -> bool {
        &&& self.pumped_read(mid, read)
        &&& if Self::failed(read) {
            after == mid
        } else {
            mid.pumped_write(after, now, wrote)
        }
        &&& outcome == Self::turn_outcome(read, wrote, after.in_flight.len() == 0)
    }

    /// What one turn of the dispatcher does: a read pump, and unless that
    /// failed, a write pump.
    pub open spec fn polled(self, after: Self, now: Timestamp, outcome: PollIo<()>) -> bool {
        exists|mid: Self, read: PollIo<()>, wrote: PollIo<()>|
            self.turned(mid, read, wrote, after, now, outcome)
    }

    /// Whether a step ended with something done.
    pub open spec fn progressed(step: PollIo<()>) -> bool {
        step matches Poll::Ready(Some(Ok(_)))
    }

    /// What a run of at most `budget` turns does: turn after turn while each
    /// makes progress. A run ends with the outcome of the first turn that
    /// makes none; a run whose budget is used up reports progress, so that it
    /// is taken up again at once.
    pub open spec fn ran(self, after: Self, now: Timestamp, budget: nat, outcome: PollIo<()>) -> bool
        decreases budget,
    {
        if budget == 0 {
            after == self && Self::progressed(outcome)
        } else {
            exists|mid: Self, turn: PollIo<()>|
                {
                    &&& #[trigger] self.polled(mid, now, turn)
                    &&& if Self::progressed(turn) {
                        mid.ran(after, now, (budget - 1) as nat, outcome)
                    } else {
                        after == mid && outcome == turn
                    }
                }
        }
    }
}

} // verus!
