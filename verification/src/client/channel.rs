//! The caller-facing channel, the handle of a call, and the dispatcher that
//! writes requests, routes responses and propagates cancellation.

use vstd::prelude::*;
use std::collections::VecDeque;
use std::marker::PhantomData;
use std::sync::Arc;
use std::sync::atomic::AtomicUsize;
use std::sync::atomic::Ordering;
use crate::client::in_flight_requests::{
    Completion, InFlightRequests, RequestData,
};
use crate::client::{Config, NewClient};
use crate::context::{Context, Timestamp};
use crate::deadline::{expires_first, is_next_deadline, lemma_expires_first_unique};
use crate::error::{CallError, DispatchError};
use crate::message::{ClientMessage, Request, Response};
use crate::poll::Poll;
use crate::client::pending_requests::{first_open, lemma_first_open, PendingRequests, PushError, Staged};
use crate::client::replay::Answers;
use crate::client::state::{
    cancel_frame, first_live, lemma_first_live, lemma_remove_len, request_data, request_frame, DispatchState, PollIo,
};
use crate::trace;
use crate::transport::{extends, lemma_since_chain, since, Exchange, Fuse, Transport};

verus! {

/// A request on its way from a [`Channel`] to the dispatcher.
#[derive(Debug, PartialEq, Eq)]
pub struct DispatchRequest<Req, S> {
    /// The context of the call, with the span of this call in it.
    pub ctx: Context,
    /// Correlates the response with the call.
    pub request_id: u64,
    /// The payload.
    pub request: Req,
    /// The slot through which the response is to reach the caller.
    pub response_completion: S,
}

/// The caller's handle of one call. It resolves once, to the response payload
/// or to an error. Giving it up before that cancels the call.
#[derive(Debug, PartialEq, Eq)]
pub struct DispatchResponse {
    /// The context the call was staged with.
    pub ctx: Context,
    /// Whether the handle has resolved or the call was given up.
    pub complete: bool,
    /// The call this handle belongs to.
    pub request_id: u64,
}

/// Hands out the identifiers of the calls made through it and stages the
/// calls. Clones share the counter of identifiers.
pub struct Channel<Req, Resp> {
    next_request_id: Arc<AtomicUsize>,
    marker: PhantomData<(Req, Resp)>,
}

/// Takes the next identifier from `counter` with `AtomicUsize::fetch_add`: the
/// value before the addition of one. Other clones draw from the same counter,
/// so nothing is claimed of the value.
fn next_id(counter: &Arc<AtomicUsize>) -> usize {
    counter.fetch_add(1, Ordering::Relaxed)
}

/// A second handle on the same counter, by `Arc::clone`.
#[verifier::external_body]
fn share(counter: &Arc<AtomicUsize>) -> (shared: Arc<AtomicUsize>) {
    Arc::clone(counter)
}

/// The identifier as it is written to the wire.
fn widen(id: usize) -> (wide: u64)
    ensures
        wide == id,
{
    id as u64
}

impl<Req, Resp> Clone for Channel<Req, Resp> {
    fn clone(&self) -> (channel: Self) {
        Channel { next_request_id: share(&self.next_request_id), marker: PhantomData }
    }
}

impl<Req, Resp> Channel<Req, Resp> {
    /// What staging the call `request` under the identifier `request_id` and
    /// the span `span_id` yields: the request for the dispatcher and the
    /// caller's handle. The caller's span becomes the parent of the call's.
    pub open spec fn spec_send<S>(
        ctx: Context,
        request: Req,
        response_completion: S,
        request_id: u64,
        span_id: u64,
    ) -> (DispatchRequest<Req, S>, DispatchResponse) {
        let ctx = Context { deadline: ctx.deadline, trace_context: ctx.trace_context.spec_child(span_id) };
        (
            DispatchRequest { ctx, request_id, request, response_completion },
            DispatchResponse { ctx, complete: false, request_id },
        )
    }

    /// A channel whose first call gets the identifier 0.
    pub fn new() -> (channel: Self) {
        Channel { next_request_id: Arc::new(AtomicUsize::new(0)), marker: PhantomData }
    }

    /// Stages a call under a given identifier and span.
    pub fn send_with<S>(ctx: Context, request: Req, response_completion: S, request_id: u64, span_id: u64) -> (staged:
        (DispatchRequest<Req, S>, DispatchResponse))
        ensures
            staged == Self::spec_send(ctx, request, response_completion, request_id, span_id),
    {
        let ctx = Context { deadline: ctx.deadline, trace_context: ctx.trace_context.child(span_id) };
        (
            DispatchRequest { ctx, request_id, request, response_completion },
            DispatchResponse { ctx, complete: false, request_id },
        )
    }

    /// The span of a call: the random bits drawn for it, or, where none could
    /// be had, the identifier of its request, which no other call of the
    /// channel bears.
    pub open spec fn spec_span(drawn: Option<u64>, request_id: u64) -> u64 {
        match drawn {
            Some(span_id) => span_id,
            None => request_id,
        }
    }

    /// Names the span of the call `request_id` from what a draw of random
    /// bits gave.
    pub fn span(drawn: Option<u64>, request_id: u64) -> (span_id: u64)
        ensures
            span_id == Self::spec_span(drawn, request_id),
    {
        match drawn {
            Some(span_id) => span_id,
            None => request_id,
        }
    }

    /// Stages a call: gives it the next identifier of this channel and a fresh
    /// random span, and returns the request for the dispatcher together with
    /// the caller's handle. The handle exists before the request can be
    /// written, so that giving it up is never missed. A call is not refused
    /// for want of random bits: its span is then named after its request.
    pub fn send<S>(&self, ctx: Context, request: Req, response_completion: S) -> (staged: (
        DispatchRequest<Req, S>,
        DispatchResponse,
    ))
        ensures
            staged == Self::spec_send(
                ctx,
                request,
                response_completion,
                staged.0.request_id,
                staged.0.ctx.trace_context.span_id,
            ),
    {
        let request_id: u64 = widen(next_id(&self.next_request_id));
        let span_id: u64 = Self::span(trace::random_u64(), request_id);
        Self::send_with(ctx, request, response_completion, request_id, span_id)
    }
}

impl DispatchResponse {
    /// What the caller of a call with the deadline `deadline` sees when its
    /// slot has resolved at `now`. A response yields its payload, or the
    /// server's error as it came, kind and detail. A slot closed without a
    /// value says that the deadline was exceeded if it has passed, and that
    /// the response was lost if it has not: the dispatcher settles an expired
    /// call by dropping its slot, which no response can do.
    pub open spec fn spec_resolve<Resp>(received: Option<Response<Resp>>, deadline: Timestamp, now: Timestamp) -> Result<
        Resp,
        CallError,
    > {
        match received {
            Some(response) => match response.message {
                Ok(payload) => Ok(payload),
                Err(error) => Err(CallError::Server(error)),
            },
            None => if deadline.spec_elapsed(now) {
                Err(CallError::DeadlineExceeded)
            } else {
                Err(CallError::ResponseLost)
            },
        }
    }

    /// Takes what the response slot has yielded at `now`. While the slot is
    /// pending, so is the handle. Once the slot has resolved, the handle is
    /// complete and yields what the caller sees.
    pub fn poll<Resp>(&mut self, received: Poll<Option<Response<Resp>>>, now: Timestamp) -> (outcome: Poll<
        Result<Resp, CallError>,
    >)
        ensures
            final(self).request_id == old(self).request_id,
            final(self).ctx == old(self).ctx,
            match received {
                Poll::Pending => outcome is Pending && final(self).complete == old(self).complete,
                Poll::Ready(slot) => outcome == Poll::Ready(Self::spec_resolve(slot, old(self).ctx.deadline, now))
                    && final(self).complete,
            },
    {
        let slot = match received {
            Poll::Pending => {
                return Poll::Pending;
            },
            Poll::Ready(slot) => slot,
        };
        self.complete = true;
        Poll::Ready(
            match slot {
                Some(response) => match response.message {
                    Ok(payload) => Ok(payload),
                    Err(error) => Err(CallError::Server(error)),
                },
                None => if self.ctx.deadline.elapsed(now) {
                    Err(CallError::DeadlineExceeded)
                } else {
                    Err(CallError::ResponseLost)
                },
            },
        )
    }

    /// Gives the call up. If the handle has not resolved, the identifier of
    /// the call is returned: its slot has to be closed first and the
    /// cancellation staged after that. A handle that has resolved, or was
    /// given up before, yields `None`.
    pub fn cancel(&mut self) -> (cancelled: Option<u64>)
        ensures
            final(self).request_id == old(self).request_id,
            final(self).ctx == old(self).ctx,
            final(self).complete,
            cancelled == if old(self).complete {
                None
            } else {
                Some(old(self).request_id)
            },
    {
        if self.complete {
            None
        } else {
            self.complete = true;
            Some(self.request_id)
        }
    }
}

/// The identifiers of the calls that were given up, in the order in which the
/// dispatcher learns of them.
#[derive(Debug)]
pub struct CanceledRequests {
    ids: VecDeque<u64>,
    closed: bool,
}

/// An empty, open queue of cancellations. It is unbounded: a caller that
/// gives up never has to wait, and what waits is bounded by the calls made.
pub fn cancellations() -> (canceled: CanceledRequests)
    ensures
        canceled@ == Seq::<u64>::empty(),
        !canceled.closed(),
{
    CanceledRequests { ids: VecDeque::new(), closed: false }
}

impl View for CanceledRequests {
    type V = Seq<u64>;

    /// The identifiers that wait, oldest first.
    closed spec fn view(&self) -> Seq<u64> {
        self.ids@
    }
}

impl CanceledRequests {
    /// Whether every handle and channel is gone: no cancellation will follow.
    pub closed spec fn closed(&self) -> bool {
        self.closed
    }

    /// Stages the cancellation of `request_id`. Dropped if the queue is closed.
    pub fn cancel(&mut self, request_id: u64)
        ensures
            final(self).closed() == old(self).closed(),
            final(self)@ == if old(self).closed() {
                old(self)@
            } else {
                old(self)@.push(request_id)
            },
    {
        if !self.closed {
            self.ids.push_back(request_id);
        }
    }

    /// Records that no cancellation will follow. What waits can still be taken.
    pub fn close(&mut self)
        ensures
            final(self)@ == old(self)@,
            final(self).closed(),
    {
        self.closed = true;
    }

    /// Takes the oldest cancellation. `Ready(None)` says that the queue is
    /// closed and empty, `Pending` that it is empty but may still be filled.
    pub fn poll_next(&mut self) -> (next: Poll<Option<u64>>)
        ensures
            final(self).closed() == old(self).closed(),
            match next {
                Poll::Ready(Some(id)) => old(self)@.len() > 0 && id == old(self)@[0] && final(self)@ == old(self)@.skip(
                    1,
                ),
                Poll::Ready(None) => old(self)@.len() == 0 && old(self).closed() && final(self)@ == old(self)@,
                Poll::Pending => old(self)@.len() == 0 && !old(self).closed() && final(self)@ == old(self)@,
            },
    {
        match self.ids.pop_front() {
            Some(id) => {
                assert(self.ids@ =~= old(self).ids@.skip(1));
                Poll::Ready(Some(id))
            },
            None => {
                if self.closed {
                    Poll::Ready(None)
                } else {
                    Poll::Pending
                }
            },
        }
    }
}

/// Writes staged requests to the transport, keeps track of the requests in
/// flight, routes responses to the callers that wait for them, and tells the
/// server which calls were given up.
pub struct RequestDispatch<Req, Resp, S, C> {
    /// Writes requests to the wire and reads responses off the wire.
    transport: Fuse<C, ClientMessage<Req>, Response<Resp>>,
    /// Requests waiting to be written to the wire.
    pending_requests: PendingRequests<Req, S>,
    /// Requests that were given up.
    canceled_requests: CanceledRequests,
    /// Requests already written to the wire that have not been settled.
    in_flight_requests: InFlightRequests<S, Resp>,
    /// Limits that keep resource usage bounded.
    config: Config,
}

/// Whether `slot` is among the slots of `slots` from position `from` on.
pub open spec fn held_since<S>(slots: Seq<S>, from: int, slot: S) -> bool {
    exists|i: int| from <= i < slots.len() && slots[i] == slot
}

/// Whether `slots` holds the response slot of every request that `state`
/// holds, staged or in flight, and nothing else.
pub open spec fn holds_every_slot<Req, Resp, S>(state: DispatchState<Req, Resp, S>, slots: Seq<S>) -> bool {
    &&& slots.len() == state.pending.len() + state.in_flight.len()
    &&& forall|k: int|
        0 <= k < state.pending.len() ==> slots[k] == (#[trigger] state.pending[k]).request.response_completion
    &&& forall|id: u64| #[trigger]
        state.in_flight.contains_key(id) ==> held_since(
            slots,
            state.pending.len() as int,
            state.in_flight[id].response_completion,
        )
}

/// What a queue reported when it had nothing to hand out.
enum ReceiverStatus {
    NotReady,
    Closed,
}

/// Returns a channel and the dispatcher that manages the lifecycle of the
/// requests staged through the channel.
pub fn new<Req, Resp, S, C: Transport<ClientMessage<Req>, Response<Resp>>>(config: Config, transport: C) -> (client:
    NewClient<Channel<Req, Resp>, RequestDispatch<Req, Resp, S, C>>)
    ensures
        client.dispatch@ == DispatchState::<Req, Resp, S>::initial(config),
        client.dispatch@.within_limit(),
        client.dispatch.exchanges() == Answers::<Req, Resp>::empty(),
{
    let pending_requests = PendingRequests::new(config.pending_request_buffer);
    let canceled_requests = cancellations();
    let dispatch = RequestDispatch {
        config,
        canceled_requests,
        transport: Fuse::new(transport),
        in_flight_requests: InFlightRequests::new(),
        pending_requests,
    };
    assert(dispatch@ =~= DispatchState::<Req, Resp, S>::initial(config));
    NewClient { client: Channel::new(), dispatch }
}

impl<Req, Resp, S, C: Transport<ClientMessage<Req>, Response<Resp>>> View for RequestDispatch<Req, Resp, S, C> {
    type V = DispatchState<Req, Resp, S>;

    closed spec fn view(&self) -> DispatchState<Req, Resp, S> {
        DispatchState {
            config: self.config,
            pending: self.pending_requests@,
            pending_closed: self.pending_requests.closed(),
            pending_bound: self.pending_requests.bound(),
            canceled: self.canceled_requests@,
            canceled_closed: self.canceled_requests.closed(),
            in_flight: self.in_flight_requests@,
            completed: self.in_flight_requests.completed(),
            sent: self.transport.sent(),
            received: self.transport.received(),
            writable: self.transport.writable(),
            done: self.transport.done(),
        }
    }
}

impl<Req, Resp, S, C: Transport<ClientMessage<Req>, Response<Resp>>> RequestDispatch<Req, Resp, S, C> {
    /// Everything this dispatcher has asked of its transport and what the
    /// transport answered, oldest first.
    pub closed spec fn exchanges(&self) -> Answers<Req, Resp> {
        self.transport.exchanges()
    }

    /// The requests in flight.
    pub fn in_flight_requests(&self) -> (requests: &InFlightRequests<S, Resp>)
        ensures
            requests@ == self@.in_flight,
            requests.completed() == self@.completed,
    {
        &self.in_flight_requests
    }

    /// The deadline that passes first, if any request is in flight. Until
    /// then no turn settles a request by its deadline.
    pub fn next_deadline(&self) -> (deadline: Option<Timestamp>)
        ensures
            match deadline {
                Some(deadline) => is_next_deadline(self@.in_flight, deadline),
                None => self@.in_flight == Map::<u64, RequestData<S>>::empty(),
            },
    {
        self.in_flight_requests.next_deadline()
    }

    /// The limits this dispatcher was made with.
    pub fn config(&self) -> (config: Config)
        ensures
            config == self@.config,
    {
        self.config
    }

    /// Stages `request` for writing, with its response slot open. Refused if
    /// every channel is gone or the queue is full; the request is then handed
    /// back.
    pub fn stage(&mut self, request: DispatchRequest<Req, S>) -> (result: Result<
        (),
        PushError<DispatchRequest<Req, S>>,
    >)
        ensures
            match result {
                Ok(()) => !old(self)@.pending_closed && old(self)@.pending.len() < old(self)@.pending_bound && final(self)@ == old(self)@.stage(request),
                Err(PushError::Closed(back)) => old(self)@.pending_closed && back == request && final(self)@ == old(self)@,
                Err(PushError::Full(back)) => !old(self)@.pending_closed && old(self)@.pending.len() >= old(self)@.pending_bound && back == request && final(self)@ == old(self)@,
            },
            final(self).exchanges() == old(self).exchanges(),
            old(self)@.within_limit() ==> final(self)@.within_limit(),
    {
        let result = self.pending_requests.push(request);
        proof {
            if result is Ok {
                assert(self@ =~= old(self)@.stage(request));
            } else {
                assert(self@ =~= old(self)@);
            }
        }
        result
    }

    /// Records that the caller of `request_id` has closed its response slot:
    /// if the request is still staged, it will never be written.
    pub fn close_response(&mut self, request_id: u64)
        ensures
            final(self)@ == old(self)@.close_response(request_id),
            final(self).exchanges() == old(self).exchanges(),
            old(self)@.within_limit() ==> final(self)@.within_limit(),
    {
        self.pending_requests.close_response(request_id);
        assert(self@ =~= old(self)@.close_response(request_id));
    }

    /// Stages the cancellation of `request_id`.
    pub fn cancel(&mut self, request_id: u64)
        ensures
            final(self)@ == old(self)@.cancel(request_id),
            final(self).exchanges() == old(self).exchanges(),
            old(self)@.within_limit() ==> final(self)@.within_limit(),
    {
        self.canceled_requests.cancel(request_id);
        assert(self@ =~= old(self)@.cancel(request_id));
    }

    /// Stages `request` whose slot was found closed or open. One that was
    /// found closed is staged as given up and will never be written.
    pub fn stage_as(&mut self, request: DispatchRequest<Req, S>, closed: bool) -> (result: Result<
        (),
        PushError<DispatchRequest<Req, S>>,
    >)
        ensures
            match result {
                Ok(()) => !old(self)@.pending_closed && old(self)@.pending.len() < old(self)@.pending_bound && final(self)@
                    == old(self)@.stage_as(request, closed),
                Err(PushError::Closed(back)) => old(self)@.pending_closed && back == request && final(self)@ == old(self)@,
                Err(PushError::Full(back)) => !old(self)@.pending_closed && old(self)@.pending.len() >= old(self)@.pending_bound
                    && back == request && final(self)@ == old(self)@,
            },
            final(self).exchanges() == old(self).exchanges(),
            old(self)@.within_limit() ==> final(self)@.within_limit(),
    {
        let request_id = request.request_id;
        match self.stage(request) {
            Ok(_) => {
                if closed {
                    self.close_response(request_id);
                }
                Ok(())
            },
            Err(e) => Err(e),
        }
    }

    /// How many requests are staged.
    pub fn staged_requests(&self) -> (staged: usize)
        ensures
            staged == self@.pending.len(),
    {
        self.pending_requests.len()
    }

    /// The response slot of the staged request at position `index`, if that
    /// many requests are staged.
    pub fn staged_slot(&self, index: usize) -> (slot: Option<&S>)
        ensures
            match slot {
                Some(slot) => index < self@.pending.len() && *slot == self@.pending[index as int].request.response_completion,
                None => index >= self@.pending.len(),
            },
    {
        self.pending_requests.slot_at(index)
    }

    /// Records, position by position, which slots of the staged requests
    /// were found closed. Those requests will never be written.
    pub fn observe(&mut self, closed: &Vec<bool>)
        ensures
            final(self)@ == old(self)@.observe(closed@),
            final(self).exchanges() == old(self).exchanges(),
            old(self)@.within_limit() ==> final(self)@.within_limit(),
    {
        self.pending_requests.close_where(closed);
        assert(self@ =~= old(self)@.observe(closed@));
    }

    /// Gives up the call `request_id`, as its caller does: the response slot
    /// is closed first and the cancellation staged after that.
    pub fn abandon(&mut self, request_id: u64)
        ensures
            final(self)@ == old(self)@.abandon(request_id),
            final(self).exchanges() == old(self).exchanges(),
            old(self)@.within_limit() ==> final(self)@.within_limit(),
    {
        self.close_response(request_id);
        self.cancel(request_id);
    }

    /// Gives up the call behind `response`, as a caller does who drops the
    /// handle: if the handle has not resolved, the response slot is closed
    /// first and the cancellation staged after that.
    pub fn drop_response(&mut self, response: DispatchResponse)
        ensures
            final(self)@ == if response.complete {
                old(self)@
            } else {
                old(self)@.close_response(response.request_id).cancel(response.request_id)
            },
            final(self).exchanges() == old(self).exchanges(),
            old(self)@.within_limit() ==> final(self)@.within_limit(),
    {
        let mut response = response;
        match response.cancel() {
            Some(request_id) => {
                self.abandon(request_id);
            },
            None => {},
        }
    }

    /// Records that every channel is gone: no request will be staged any more.
    pub fn close_requests(&mut self)
        ensures
            final(self)@ == (DispatchState { pending_closed: true, ..old(self)@ }),
            final(self).exchanges() == old(self).exchanges(),
            old(self)@.within_limit() ==> final(self)@.within_limit(),
    {
        self.pending_requests.close();
        assert(self@ =~= (DispatchState { pending_closed: true, ..old(self)@ }));
    }

    /// Records that every channel and every handle is gone: no cancellation
    /// will follow.
    pub fn close_cancellations(&mut self)
        ensures
            final(self)@ == (DispatchState { canceled_closed: true, ..old(self)@ }),
            final(self).exchanges() == old(self).exchanges(),
            old(self)@.within_limit() ==> final(self)@.within_limit(),
    {
        self.canceled_requests.close();
        assert(self@ =~= (DispatchState { canceled_closed: true, ..old(self)@ }));
    }

    /// Gives the dispatcher up, as the end of its task does. The response
    /// slot of every request it still holds, staged or in flight, is handed
    /// out: dropping them closes them without a value, so that no caller is
    /// left waiting. Deliveries that were decided have to be collected
    /// before.
    pub fn shutdown(self) -> (slots: Vec<S>)
        ensures
            self@.in_flight.dom().finite(),
            holds_every_slot(self@, slots@),
    {
        let mut dispatch = self;
        let ghost before = dispatch@;
        let mut slots: Vec<S> = Vec::new();
        while dispatch.pending_requests.len() > 0
            invariant
                before == self@,
                dispatch@.in_flight == before.in_flight,
                slots@.len() + dispatch@.pending.len() == before.pending.len(),
                dispatch@.pending == before.pending.skip(slots@.len() as int),
                forall|k: int| 0 <= k < slots@.len() ==> slots@[k] == (#[trigger] before.pending[k]).request.response_completion,
            decreases dispatch@.pending.len(),
        {
            let ghost staged = dispatch@.pending;
            match dispatch.pending_requests.poll_recv() {
                Poll::Ready(Some(next)) => {
                    assert(next == before.pending[slots@.len() as int]);
                    slots.push(next.request.response_completion);
                    assert(dispatch@.pending =~= before.pending.skip(slots@.len() as int));
                },
                _ => {
                    assert(false);
                },
            }
        }
        let ghost from = before.pending.len() as int;
        let held = dispatch.in_flight_requests.len();
        let mut remaining: usize = held;
        assert(from == slots@.len());
        while remaining > 0
            invariant
                before == self@,
                from == before.pending.len(),
                before.in_flight.dom().finite(),
                dispatch@.in_flight.dom().finite(),
                remaining == dispatch@.in_flight.len(),
                from <= slots@.len(),
                slots@.len() + dispatch@.in_flight.len() == from + before.in_flight.len(),
                forall|k: int| 0 <= k < from ==> slots@[k] == (#[trigger] before.pending[k]).request.response_completion,
                forall|id: u64| #[trigger]
                    dispatch@.in_flight.contains_key(id) ==> before.in_flight.contains_key(id) && dispatch@.in_flight[id]
                        == before.in_flight[id],
                forall|id: u64| #[trigger]
                    before.in_flight.contains_key(id) ==> dispatch@.in_flight.contains_key(id) || held_since(
                        slots@,
                        from,
                        before.in_flight[id].response_completion,
                    ),
            decreases remaining,
        {
            let ghost earlier = dispatch@;
            let ghost taken = slots@;
            match dispatch.in_flight_requests.pop() {
                Some((id, data)) => {
                    proof {
                        earlier.in_flight.lemma_remove_key_len(id);
                    }
                    slots.push(data.response_completion);
                    remaining = remaining - 1;
                    proof {
                        let at = taken.len() as int;
                        assert(slots@[at] == before.in_flight[id].response_completion);
                        assert forall|other: u64| #[trigger]
                            before.in_flight.contains_key(other) implies dispatch@.in_flight.contains_key(other)
                            || held_since(slots@, from, before.in_flight[other].response_completion) by {
                            if other == id {
                                assert(from <= at < slots@.len());
                            } else if !earlier.in_flight.contains_key(other) {
                                let i = choose|i: int|
                                    from <= i < taken.len() && taken[i] == before.in_flight[other].response_completion;
                                assert(slots@[i] == taken[i]);
                            }
                        }
                    }
                },
                None => {
                    assert(false);
                },
            }
        }
        slots
    }

    /// Hands out the deliveries decided since the last call, oldest first.
    /// Each holds a response and the slot it has to be put into.
    pub fn take_completed(&mut self) -> (completed: Vec<Completion<S, Resp>>)
        ensures
            completed@ == old(self)@.completed,
            final(self)@ == (DispatchState { completed: Seq::empty(), ..old(self)@ }),
            final(self).exchanges() == old(self).exchanges(),
            old(self)@.within_limit() ==> final(self)@.within_limit(),
    {
        let completed = self.in_flight_requests.take_completed();
        assert(self@ =~= (DispatchState { completed: Seq::empty(), ..old(self)@ }));
        completed
    }

    /// Routes a server response to the caller that waits for it. A response to
    /// a request that is not in flight is dropped: its caller has given up or
    /// its deadline has passed. The result says whether the request was in
    /// flight.
    pub fn complete(&mut self, response: Response<Resp>) -> (found: bool)
        ensures
            found == old(self)@.in_flight.contains_key(response.request_id),
            final(self)@ == old(self)@.complete(response),
            final(self).exchanges() == old(self).exchanges(),
            old(self)@.within_limit() ==> final(self)@.within_limit(),
    {
        let found = self.in_flight_requests.complete_request(response);
        proof {
            if found {
                assert(self@ =~= old(self)@.complete(response));
            } else {
                assert(self@.in_flight =~= old(self)@.in_flight);
                assert(self@ =~= old(self)@.complete(response));
            }
            if old(self)@.within_limit() {
                lemma_remove_len(old(self)@.in_flight, response.request_id);
            }
        }
        found
    }

    /// Reads one frame from the transport and routes it. `Ready(None)` says
    /// that the inbound stream has ended. What the transport answers decides:
    /// its error is the error, and while it is pending so is the pump.
    pub fn pump_read(&mut self) -> (read: PollIo<()>)
        ensures
            old(self)@.pumped_read(final(self)@, read),
            extends(final(self).exchanges(), old(self).exchanges()),
            old(self)@.read_step(since(final(self).exchanges(), old(self).exchanges())).describes(
                final(self)@,
                read,
                since(final(self).exchanges(), old(self).exchanges()),
            ),
            old(self)@.within_limit() ==> final(self)@.within_limit(),
    {
        let ghost asked = self.exchanges();
        let next = self.transport.poll_next();
        let ghost answer = next;
        proof {
            assert(self.exchanges().subrange(0, asked.len() as int) =~= asked);
            if old(self)@.done {
                assert(since(self.exchanges(), asked) =~= Seq::empty());
            } else {
                assert(since(self.exchanges(), asked) =~= seq![Exchange::Read(answer)]);
            }
        }
        match next {
            Poll::Ready(Some(Ok(response))) => {
                let ghost mid = self@;
                let ghost frame = response;
                assert(mid =~= (DispatchState { received: old(self)@.received.push(frame), ..old(self)@ }));
                self.complete(response);
                assert(self@ =~= (DispatchState {
                    received: old(self)@.received.push(frame),
                    ..old(self)@.complete(frame)
                }));
                assert(self@.received.last() == frame);
                proof {
                    if old(self)@.within_limit() {
                        lemma_remove_len(old(self)@.in_flight, frame.request_id);
                    }
                }
                Poll::Ready(Some(Ok(())))
            },
            Poll::Ready(Some(Err(e))) => {
                assert(self@ =~= old(self)@);
                Poll::Ready(Some(Err(DispatchError::Read(e))))
            },
            Poll::Ready(None) => {
                assert(self@ =~= (DispatchState { done: true, ..old(self)@ }));
                Poll::Ready(None)
            },
            Poll::Pending => {
                assert(self@ =~= old(self)@);
                Poll::Pending
            },
        }
    }

    /// Yields the next staged request, if one is ready to be written.
    ///
    /// Nothing is taken while as many requests are in flight as there may be:
    /// responses and deadlines make room again. Nothing is taken before the
    /// transport can accept a frame. A request whose caller has closed the
    /// response slot is dropped instead of being yielded.
    pub fn poll_next_request(&mut self) -> (next: PollIo<DispatchRequest<Req, S>>)
        ensures
            old(self)@.polled_request(final(self)@, next),
            extends(final(self).exchanges(), old(self).exchanges()),
            old(self)@.next_request_step(since(final(self).exchanges(), old(self).exchanges())).describes(
                final(self)@,
                next,
                since(final(self).exchanges(), old(self).exchanges()),
            ),
            old(self)@.within_limit() ==> final(self)@.within_limit(),
    {
        let ghost asked = self.exchanges();
        if self.in_flight_requests.len() >= self.config.max_in_flight_requests {
            // No wakeup is needed: responses and deadlines clear out requests
            // in flight.
            proof {
                assert(asked.subrange(0, asked.len() as int) =~= asked);
                assert(since(asked, asked) =~= Seq::empty());
            }
            return Poll::Pending;
        }
        let ghost unasked = self.exchanges();
        let ready = self.transport.poll_writable();
        let ghost answer = ready;
        match ready {
            Poll::Ready(Ok(_)) => {},
            Poll::Ready(Err(e)) => {
                assert(self@ =~= (DispatchState { writable: self@.writable, ..old(self)@ }));
                return Poll::Ready(Some(Err(DispatchError::Write(e))));
            },
            Poll::Pending => {
                assert(self@ =~= (DispatchState { writable: self@.writable, ..old(self)@ }));
                return Poll::Pending;
            },
        }
        let ghost before = old(self)@;
        let ghost skipped: int = 0;
        let ghost answered = self.exchanges();
        proof {
            lemma_first_open(before.pending);
            assert(before.pending.skip(0) =~= before.pending);
            assert(unasked == asked);
            let ready = before.ready_step(since(answered, asked));
            assert(ready.result == answer);
            assert(ready.state =~= (DispatchState { writable: true, ..before }));
        }
        loop
            invariant
                self.transport.writable(),
                !before.at_capacity(),
                before == old(self)@,
                self.exchanges() == answered,
                asked == old(self).exchanges(),
                extends(answered, asked),
                answer matches Poll::Ready(Ok(_)),
                before.ready_step(since(answered, asked)).describes(
                    DispatchState { writable: true, ..before },
                    answer,
                    since(answered, asked),
                ),
                self@ == (DispatchState { pending: self@.pending, writable: true, ..before }),
                0 <= skipped <= before.pending.len(),
                self@.pending == before.pending.skip(skipped),
                first_open(before.pending) == skipped + first_open(self@.pending),
            decreases self@.pending.len(),
        {
            let ghost current = self@.pending;
            match self.pending_requests.poll_recv() {
                Poll::Ready(Some(staged)) => {
                    proof {
                        assert(current.skip(1) =~= before.pending.skip(skipped + 1));
                        assert(staged == before.pending[skipped]);
                    }
                    if !staged.response_closed {
                        proof {
                            assert(first_open(before.pending) == skipped);
                            assert(self@ =~= (DispatchState {
                                pending: before.pending_rest(),
                                writable: true,
                                ..before
                            }));
                        }
                        return Poll::Ready(Some(Ok(staged.request)));
                    }
                    proof {
                        skipped = skipped + 1;
                        assert(self@ =~= (DispatchState { pending: self@.pending, writable: true, ..before }));
                    }
                },
                Poll::Ready(None) => {
                    proof {
                        assert(first_open(before.pending) == before.pending.len());
                        assert(self@.pending =~= Seq::<Staged<Req, S>>::empty());
                        assert(self@ =~= (DispatchState { pending: before.pending_rest(), writable: true, ..before }));
                    }
                    return Poll::Ready(None);
                },
                Poll::Pending => {
                    proof {
                        assert(first_open(before.pending) == before.pending.len());
                        assert(self@.pending =~= Seq::<Staged<Req, S>>::empty());
                        assert(self@ =~= (DispatchState { pending: before.pending_rest(), writable: true, ..before }));
                    }
                    return Poll::Pending;
                },
            }
        }
    }

    /// Yields the next cancellation, if one is ready to be written, and takes
    /// the request it names out of the table. A cancellation of a request that
    /// is not in flight is dropped: that request was settled already.
    pub fn poll_next_cancellation(&mut self) -> (next: PollIo<(Context, u64)>)
        ensures
            old(self)@.polled_cancellation(final(self)@, next),
            extends(final(self).exchanges(), old(self).exchanges()),
            old(self)@.next_cancellation_step(since(final(self).exchanges(), old(self).exchanges())).describes(
                final(self)@,
                next,
                since(final(self).exchanges(), old(self).exchanges()),
            ),
            old(self)@.within_limit() ==> final(self)@.within_limit(),
    {
        let ghost unasked = self.exchanges();
        let ready = self.transport.poll_writable();
        let ghost answer = ready;
        match ready {
            Poll::Ready(Ok(_)) => {},
            Poll::Ready(Err(e)) => {
                assert(self@ =~= (DispatchState { writable: self@.writable, ..old(self)@ }));
                return Poll::Ready(Some(Err(DispatchError::Write(e))));
            },
            Poll::Pending => {
                assert(self@ =~= (DispatchState { writable: self@.writable, ..old(self)@ }));
                return Poll::Pending;
            },
        }
        let ghost before = old(self)@;
        let ghost skipped: int = 0;
        let ghost asked = old(self).exchanges();
        let ghost answered = self.exchanges();
        proof {
            lemma_first_live(before.canceled, before.in_flight);
            assert(before.canceled.skip(0) =~= before.canceled);
            assert(unasked == asked);
            let ready = before.ready_step(since(answered, asked));
            assert(ready.result == answer);
            assert(ready.state =~= (DispatchState { writable: true, ..before }));
        }
        loop
            invariant
                self.transport.writable(),
                before == old(self)@,
                self.exchanges() == answered,
                asked == old(self).exchanges(),
                extends(answered, asked),
                answer matches Poll::Ready(Ok(_)),
                before.ready_step(since(answered, asked)).describes(
                    DispatchState { writable: true, ..before },
                    answer,
                    since(answered, asked),
                ),
                self@ == (DispatchState { canceled: self@.canceled, writable: true, ..before }),
                0 <= skipped <= before.canceled.len(),
                self@.canceled == before.canceled.skip(skipped),
                first_live(before.canceled, before.in_flight) == skipped + first_live(
                    self@.canceled,
                    before.in_flight,
                ),
            decreases self@.canceled.len(),
        {
            let ghost current = self@.canceled;
            match self.canceled_requests.poll_next() {
                Poll::Ready(Some(request_id)) => {
                    proof {
                        assert(current.skip(1) =~= before.canceled.skip(skipped + 1));
                        assert(request_id == before.canceled[skipped]);
                    }
                    match self.in_flight_requests.cancel_request(request_id) {
                        Some(ctx) => {
                            proof {
                                assert(first_live(before.canceled, before.in_flight) == skipped);
                                assert(self@ =~= (DispatchState {
                                    canceled: before.canceled_rest(),
                                    in_flight: before.in_flight.remove(request_id),
                                    writable: true,
                                    ..before
                                }));
                                if before.within_limit() {
                                    lemma_remove_len(before.in_flight, request_id);
                                }
                            }
                            return Poll::Ready(Some(Ok((ctx, request_id))));
                        },
                        None => {
                            proof {
                                skipped = skipped + 1;
                                assert(self@.in_flight =~= before.in_flight);
                                assert(self@ =~= (DispatchState {
                                    canceled: self@.canceled,
                                    writable: true,
                                    ..before
                                }));
                            }
                        },
                    }
                },
                Poll::Ready(None) => {
                    proof {
                        assert(first_live(before.canceled, before.in_flight) == before.canceled.len());
                        assert(self@.canceled =~= Seq::<u64>::empty());
                        assert(self@ =~= (DispatchState {
                            canceled: before.canceled_rest(),
                            in_flight: before.in_flight,
                            writable: true,
                            ..before
                        }));
                    }
                    return Poll::Ready(None);
                },
                Poll::Pending => {
                    proof {
                        assert(first_live(before.canceled, before.in_flight) == before.canceled.len());
                        assert(self@.canceled =~= Seq::<u64>::empty());
                        assert(self@ =~= (DispatchState {
                            canceled: before.canceled_rest(),
                            in_flight: before.in_flight,
                            writable: true,
                            ..before
                        }));
                    }
                    return Poll::Pending;
                },
            }
        }
    }

    /// Writes the request to the transport and registers it as in flight.
    ///
    /// A request whose identifier is in flight already is refused before
    /// anything is written: the dispatcher's accounting would be broken.
    fn write_request(&mut self, dispatch_request: DispatchRequest<Req, S>) -> (result: Result<(), DispatchError>)
        requires
            old(self)@.writable,
        ensures
            match result {
                Ok(()) => old(self)@.wrote_request(final(self)@, dispatch_request),
                Err(DispatchError::DuplicateRequestId(id)) => {
                    &&& id == dispatch_request.request_id
                    &&& old(self)@.in_flight.contains_key(id)
                    &&& final(self)@ == old(self)@
                },
                Err(DispatchError::Write(_)) => {
                    &&& !old(self)@.in_flight.contains_key(dispatch_request.request_id)
                    &&& final(self)@ == (DispatchState { writable: false, ..old(self)@ })
                },
                Err(DispatchError::Read(_)) => false,
            },
            extends(final(self).exchanges(), old(self).exchanges()),
            old(self)@.write_request_step(
                dispatch_request,
                since(final(self).exchanges(), old(self).exchanges()),
            ).describes(final(self)@, result, since(final(self).exchanges(), old(self).exchanges())),
            old(self)@.within_limit() && !old(self)@.at_capacity() ==> final(self)@.within_limit(),
    {
        let request_id = dispatch_request.request_id;
        let ghost asked = self.exchanges();
        if self.in_flight_requests.contains(request_id) {
            proof {
                assert(asked.subrange(0, asked.len() as int) =~= asked);
                assert(since(asked, asked) =~= Seq::empty());
            }
            return Err(DispatchError::DuplicateRequestId(request_id));
        }
        let request = ClientMessage::Request(
            Request {
                id: request_id,
                message: dispatch_request.request,
                context: Context {
                    deadline: dispatch_request.ctx.deadline,
                    trace_context: dispatch_request.ctx.trace_context,
                },
            },
        );
        let ghost frame = request;
        assert(frame == request_frame(dispatch_request));
        let sent = self.transport.start_send(request);
        proof {
            assert(self.exchanges().subrange(0, asked.len() as int) =~= asked);
            assert(since(self.exchanges(), asked) =~= seq![Exchange::Sent(frame, sent)]);
        }
        match sent {
            Ok(_) => {},
            Err(e) => {
                assert(self@ =~= (DispatchState { writable: false, ..old(self)@ }));
                return Err(DispatchError::Write(e));
            },
        }
        let _ = self.in_flight_requests.insert_request(
            request_id,
            dispatch_request.ctx,
            dispatch_request.response_completion,
        );
        proof {
            assert(self@ =~= (DispatchState {
                in_flight: old(self)@.in_flight.insert(request_id, request_data(dispatch_request)),
                sent: old(self)@.sent.push(request_frame(dispatch_request)),
                writable: false,
                ..old(self)@
            }));
        }
        Ok(())
    }

    /// Tells the server that the request `request_id`, sent with `context`,
    /// was given up.
    fn write_cancel(&mut self, context: Context, request_id: u64) -> (result: Result<(), DispatchError>)
        requires
            old(self)@.writable,
        ensures
            match result {
                Ok(()) => old(self)@.wrote_cancel(final(self)@, context, request_id),
                Err(e) => e is Write && final(self)@ == (DispatchState { writable: false, ..old(self)@ }),
            },
            extends(final(self).exchanges(), old(self).exchanges()),
            old(self)@.write_cancel_step(
                context,
                request_id,
                since(final(self).exchanges(), old(self).exchanges()),
            ).describes(final(self)@, result, since(final(self).exchanges(), old(self).exchanges())),
            old(self)@.within_limit() ==> final(self)@.within_limit(),
    {
        let cancel = ClientMessage::Cancel { trace_context: context.trace_context, request_id };
        let ghost asked = self.exchanges();
        let ghost frame = cancel;
        assert(frame == cancel_frame::<Req>(context, request_id));
        let sent = self.transport.start_send(cancel);
        proof {
            assert(self.exchanges().subrange(0, asked.len() as int) =~= asked);
            assert(since(self.exchanges(), asked) =~= seq![Exchange::Sent(frame, sent)]);
        }
        match sent {
            Ok(_) => {
                assert(self@ =~= (DispatchState {
                    sent: old(self)@.sent.push(cancel_frame(context, request_id)),
                    writable: false,
                    ..old(self)@
                }));
                Ok(())
            },
            Err(e) => {
                assert(self@ =~= (DispatchState { writable: false, ..old(self)@ }));
                Err(DispatchError::Write(e))
            },
        }
    }

    /// Makes one step on the outbound side: writes the next staged request;
    /// failing that, the next cancellation; failing that, settles the request
    /// whose deadline has passed at `now`. If none of this could be done, the
    /// transport is flushed. `Ready(None)` says that both queues are closed
    /// and exhausted and everything written was flushed.
    pub fn pump_write(&mut self, now: Timestamp) -> (wrote: PollIo<()>)
        ensures
            old(self)@.pumped_write(final(self)@, now, wrote),
            extends(final(self).exchanges(), old(self).exchanges()),
            old(self)@.write_step(now, since(final(self).exchanges(), old(self).exchanges())).describes(
                final(self)@,
                wrote,
                since(final(self).exchanges(), old(self).exchanges()),
            ),
            old(self)@.within_limit() ==> final(self)@.within_limit(),
    {
        let ghost before = old(self)@;
        let ghost ex0 = self.exchanges();
        let first = self.poll_next_request();
        let ghost next1 = first;
        let ghost ex1 = self.exchanges();
        let ghost mid = self@;
        let pending_requests_status = match first {
            Poll::Ready(Some(Ok(dispatch_request))) => {
                let ghost taken = self@;
                let written = self.write_request(dispatch_request);
                proof {
                    let ex = self.exchanges();
                    lemma_since_chain(ex0, ex1, ex);
                    before.lemma_write_step_request(
                        now,
                        since(ex1, ex0),
                        since(ex, ex1),
                        taken,
                        dispatch_request,
                        self@,
                        written,
                    );
                }
                match written {
                    Ok(_) => {
                        proof {
                            assert(taken =~= (DispatchState {
                                writable: true,
                                ..(DispatchState { pending: before.pending_rest(), ..before })
                            }));
                            assert(self@ =~= (DispatchState {
                                in_flight: before.in_flight.insert(
                                    dispatch_request.request_id,
                                    request_data(dispatch_request),
                                ),
                                sent: before.sent.push(request_frame(dispatch_request)),
                                writable: false,
                                ..(DispatchState { pending: before.pending_rest(), ..before })
                            }));
                        }
                        return Poll::Ready(Some(Ok(())));
                    },
                    Err(e) => {
                        proof {
                            match e {
                                DispatchError::DuplicateRequestId(_) => {
                                    assert(self@ =~= (DispatchState {
                                        pending: before.pending_rest(),
                                        writable: self@.writable,
                                        ..before
                                    }));
                                },
                                _ => {
                                    assert(self@ =~= (DispatchState {
                                        pending: self@.pending,
                                        canceled: self@.canceled,
                                        in_flight: self@.in_flight,
                                        writable: self@.writable,
                                        ..before
                                    }));
                                },
                            }
                        }
                        return Poll::Ready(Some(Err(e)));
                    },
                }
            },
            Poll::Ready(Some(Err(e))) => {
                proof {
                    before.lemma_write_step_failed(now, since(ex1, ex0), self@, e);
                    assert(self@ =~= (DispatchState {
                        pending: self@.pending,
                        canceled: self@.canceled,
                        in_flight: self@.in_flight,
                        writable: self@.writable,
                        ..before
                    }));
                }
                return Poll::Ready(Some(Err(e)));
            },
            Poll::Ready(None) => ReceiverStatus::Closed,
            Poll::Pending => ReceiverStatus::NotReady,
        };
        assert(before.request_stage_passed(mid.pending));
        assert(mid =~= (DispatchState { pending: mid.pending, writable: mid.writable, ..before }));
        assert(pending_requests_status is Closed ==> before.pending_closed && !before.at_capacity()
            && before.next_request() is None && mid.pending == Seq::<Staged<Req, S>>::empty());

        let second = self.poll_next_cancellation();
        let ghost next2 = second;
        let ghost ex2 = self.exchanges();
        let ghost late = self@;
        let ghost ended = next1 matches Poll::Ready(None);
        proof {
            lemma_since_chain(ex0, ex1, ex2);
        }
        let canceled_requests_status = match second {
            Poll::Ready(Some(Ok((context, request_id)))) => {
                let ghost taken = self@;
                let written = self.write_cancel(context, request_id);
                proof {
                    let ex = self.exchanges();
                    lemma_since_chain(ex1, ex2, ex);
                    lemma_since_chain(ex0, ex1, ex);
                    mid.lemma_cancel_stage_cancel(
                        now,
                        ended,
                        since(ex2, ex1),
                        since(ex, ex2),
                        taken,
                        context,
                        request_id,
                        self@,
                        written,
                    );
                    before.lemma_write_step_rest(
                        now,
                        since(ex1, ex0),
                        since(ex, ex1),
                        mid,
                        next1,
                        self@,
                        DispatchState::<Req, Resp, S>::written(written),
                    );
                }
                match written {
                    Ok(_) => {
                        proof {
                            assert(taken =~= (DispatchState {
                                writable: true,
                                ..(DispatchState {
                                    pending: self@.pending,
                                    canceled: before.canceled_rest(),
                                    in_flight: before.in_flight.remove(request_id),
                                    ..before
                                })
                            }));
                            assert(self@ =~= (DispatchState {
                                sent: before.sent.push(cancel_frame(before.in_flight[request_id].ctx, request_id)),
                                writable: false,
                                ..(DispatchState {
                                    pending: self@.pending,
                                    canceled: before.canceled_rest(),
                                    in_flight: before.in_flight.remove(request_id),
                                    ..before
                                })
                            }));
                        }
                        return Poll::Ready(Some(Ok(())));
                    },
                    Err(e) => {
                        proof {
                            assert(self@ =~= (DispatchState {
                                pending: self@.pending,
                                canceled: self@.canceled,
                                in_flight: self@.in_flight,
                                writable: self@.writable,
                                ..before
                            }));
                        }
                        return Poll::Ready(Some(Err(e)));
                    },
                }
            },
            Poll::Ready(Some(Err(e))) => {
                proof {
                    mid.lemma_cancel_stage_failed(now, ended, since(ex2, ex1), self@, e);
                    before.lemma_write_step_rest(
                        now,
                        since(ex1, ex0),
                        since(ex2, ex1),
                        mid,
                        next1,
                        self@,
                        Poll::Ready(Some(Err(e))),
                    );
                    assert(self@ =~= (DispatchState {
                        pending: self@.pending,
                        canceled: self@.canceled,
                        in_flight: self@.in_flight,
                        writable: self@.writable,
                        ..before
                    }));
                }
                return Poll::Ready(Some(Err(e)));
            },
            Poll::Ready(None) => ReceiverStatus::Closed,
            Poll::Pending => ReceiverStatus::NotReady,
        };
        assert(before.cancel_stage_passed(late.canceled));
        assert(late =~= (DispatchState {
            pending: late.pending,
            canceled: late.canceled,
            writable: late.writable,
            ..before
        }));
        assert(canceled_requests_status is Closed ==> before.canceled_closed && before.next_cancellation() is None
            && late.canceled == Seq::<u64>::empty());

        // That no request is in flight right now does not mean that none will
        // be: the end of expirations is never the end of the dispatcher.
        match self.in_flight_requests.poll_expired(now) {
            Poll::Ready(Some((id, _))) => {
                // A request that has expired is settled. The server is not
                // told: it has used up the time it was given.
                proof {
                    late.lemma_first_due(id);
                    assert(self@ =~= (DispatchState { in_flight: late.in_flight.remove(id), ..late }));
                    mid.lemma_cancel_stage_expired(now, ended, since(ex2, ex1), late, next2, self@);
                    before.lemma_write_step_rest(
                        now,
                        since(ex1, ex0),
                        since(ex2, ex1),
                        mid,
                        next1,
                        self@,
                        Poll::Ready(Some(Ok(()))),
                    );
                    assert(self@ =~= (DispatchState { in_flight: late.in_flight.remove(id), ..late }));
                    if before.within_limit() {
                        lemma_remove_len(late.in_flight, id);
                    }
                }
                return Poll::Ready(Some(Ok(())));
            },
            Poll::Ready(None) => {
                assert(self@ =~= late);
                assert(!before.expiry_due(now));
                assert(late.expire_step(now) is None);
            },
            Poll::Pending => {
                assert(self@ =~= late);
                proof {
                    let first = choose|id: u64|
                        expires_first(late.in_flight, id) && !late.in_flight[id].ctx.deadline.spec_elapsed(now);
                    assert forall|id: u64| expires_first(late.in_flight, id) implies !late.in_flight[id].ctx.deadline.spec_elapsed(
                        now,
                    ) by {
                        lemma_expires_first_unique(late.in_flight, id, first);
                    }
                    late.lemma_first_due(first);
                    assert(late.expire_step(now) is None);
                }
                assert(!before.expiry_due(now));
            },
        }

        match (pending_requests_status, canceled_requests_status) {
            (ReceiverStatus::Closed, ReceiverStatus::Closed) => {
                let flushed = self.transport.poll_flush();
                let ghost flushing = late.flush_step(
                    ended && (next2 matches Poll::Ready(None)),
                    seq![Exchange::Flushed(flushed)],
                );
                proof {
                    let ex = self.exchanges();
                    assert(ex.subrange(0, ex2.len() as int) =~= ex2);
                    assert(since(ex, ex2) =~= seq![Exchange::Flushed(flushed)]);
                    lemma_since_chain(ex1, ex2, ex);
                    lemma_since_chain(ex0, ex1, ex);
                    assert(self@ =~= flushing.state);
                    mid.lemma_cancel_stage_flushed(
                        now,
                        ended,
                        since(ex2, ex1),
                        since(ex, ex2),
                        late,
                        next2,
                        self@,
                        flushing.result,
                    );
                    before.lemma_write_step_rest(
                        now,
                        since(ex1, ex0),
                        since(ex, ex1),
                        mid,
                        next1,
                        self@,
                        flushing.result,
                    );
                }
                match flushed {
                    Poll::Ready(Ok(_)) => {
                        assert(self@ =~= (DispatchState {
                            pending: Seq::empty(),
                            canceled: Seq::empty(),
                            writable: false,
                            ..before
                        }));
                        Poll::Ready(None)
                    },
                    Poll::Ready(Err(e)) => {
                        assert(self@ =~= (DispatchState {
                            pending: self@.pending,
                            canceled: self@.canceled,
                            in_flight: self@.in_flight,
                            writable: self@.writable,
                            ..before
                        }));
                        Poll::Ready(Some(Err(DispatchError::Write(e))))
                    },
                    Poll::Pending => {
                        assert(self@ =~= (DispatchState {
                            pending: self@.pending,
                            canceled: self@.canceled,
                            writable: self@.writable,
                            ..before
                        }));
                        Poll::Pending
                    },
                }
            },
            _ => {
                // Nothing more to write right now, so what the transport has
                // buffered is flushed.
                let flushed = self.transport.poll_flush();
                let ghost flushing = late.flush_step(
                    ended && (next2 matches Poll::Ready(None)),
                    seq![Exchange::Flushed(flushed)],
                );
                proof {
                    let ex = self.exchanges();
                    assert(ex.subrange(0, ex2.len() as int) =~= ex2);
                    assert(since(ex, ex2) =~= seq![Exchange::Flushed(flushed)]);
                    lemma_since_chain(ex1, ex2, ex);
                    lemma_since_chain(ex0, ex1, ex);
                    assert(self@ =~= flushing.state);
                    mid.lemma_cancel_stage_flushed(
                        now,
                        ended,
                        since(ex2, ex1),
                        since(ex, ex2),
                        late,
                        next2,
                        self@,
                        flushing.result,
                    );
                    before.lemma_write_step_rest(
                        now,
                        since(ex1, ex0),
                        since(ex, ex1),
                        mid,
                        next1,
                        self@,
                        flushing.result,
                    );
                }
                match flushed {
                    Poll::Ready(Err(e)) => {
                        assert(self@ =~= (DispatchState {
                            pending: self@.pending,
                            canceled: self@.canceled,
                            in_flight: self@.in_flight,
                            writable: self@.writable,
                            ..before
                        }));
                        Poll::Ready(Some(Err(DispatchError::Write(e))))
                    },
                    _ => {
                        // Even when everything is flushed there is nothing to
                        // do before a request or a cancellation arrives.
                        assert(self@ =~= (DispatchState {
                            pending: self@.pending,
                            canceled: self@.canceled,
                            writable: self@.writable,
                            ..before
                        }));
                        Poll::Pending
                    },
                }
            },
        }
    }

    /// Makes one turn: a step on the inbound side, then one on the outbound
    /// side. `Ready(Some(Ok(_)))` says that there was progress and the next
    /// turn is due at once. `Ready(None)` says that the dispatcher is through:
    /// the inbound stream has ended, or both queues are closed and exhausted
    /// and no request is in flight. With the queues exhausted and requests
    /// still in flight the dispatcher goes on reading until the responses
    /// have arrived or the deadlines have passed.
    pub fn poll(&mut self, now: Timestamp) -> (outcome: PollIo<()>)
        ensures
            old(self)@.polled(final(self)@, now, outcome),
            extends(final(self).exchanges(), old(self).exchanges()),
            old(self)@.turn_step(now, since(final(self).exchanges(), old(self).exchanges())).describes(
                final(self)@,
                outcome,
                since(final(self).exchanges(), old(self).exchanges()),
            ),
            old(self)@.within_limit() ==> final(self)@.within_limit(),
            outcome is Ready && outcome->Ready_0 is None ==> final(self)@.done || (final(self)@.pending_closed && final(self)@.canceled_closed && final(self)@.pending.len() == 0 && final(self)@.canceled.len() == 0 && final(self)@.in_flight == Map::<u64, RequestData<S>>::empty()),
    {
        let ghost ex0 = self.exchanges();
        let read = match self.pump_read() {
            Poll::Ready(Some(Err(e))) => {
                proof {
                    old(self)@.lemma_turn_step_failed(now, since(self.exchanges(), ex0), self@, Poll::Ready(Some(Err(e))));
                    let read: PollIo<()> = Poll::Ready(Some(Err(e)));
                    assert(old(self)@.turned(self@, read, read, self@, now, read));
                }
                return Poll::Ready(Some(Err(e)));
            },
            read => read,
        };
        let ghost mid = self@;
        let ghost ex1 = self.exchanges();
        let wrote = self.pump_write(now);
        proof {
            lemma_since_chain(ex0, ex1, self.exchanges());
            old(self)@.lemma_turn_step(now, since(ex1, ex0), since(self.exchanges(), ex1), mid, read, self@, wrote);
        }
        let idle = self.in_flight_requests.is_empty();
        let outcome = match (read, wrote) {
            (_, Poll::Ready(Some(Err(e)))) => Poll::Ready(Some(Err(e))),
            (Poll::Ready(None), _) => Poll::Ready(None),
            (read, Poll::Ready(None)) => {
                if idle {
                    Poll::Ready(None)
                } else {
                    match read {
                        Poll::Ready(Some(_)) => Poll::Ready(Some(Ok(()))),
                        _ => Poll::Pending,
                    }
                }
            },
            (Poll::Ready(Some(_)), _) => Poll::Ready(Some(Ok(()))),
            (_, Poll::Ready(Some(_))) => Poll::Ready(Some(Ok(()))),
            _ => Poll::Pending,
        };
        proof {
            assert(old(self)@.turned(mid, read, wrote, self@, now, outcome));
        }
        outcome
    }

    /// Makes turn after turn while each makes progress, at most `budget` of
    /// them. The outcome is that of the first turn that makes no progress:
    /// `Pending` if nothing more can be done for now, `Ready(None)` if the
    /// dispatcher is through, or the error it met. A run whose budget is used
    /// up reports progress.
    pub fn run(&mut self, now: Timestamp, budget: usize) -> (outcome: PollIo<()>)
        ensures
            old(self)@.ran(final(self)@, now, budget as nat, outcome),
            extends(final(self).exchanges(), old(self).exchanges()),
            old(self)@.run_steps(
                final(self)@,
                now,
                budget as nat,
                outcome,
                since(final(self).exchanges(), old(self).exchanges()),
            ),
            old(self)@.within_limit() ==> final(self)@.within_limit(),
    {
        let ghost start = self@;
        let ghost ex0 = self.exchanges();
        let mut left = budget;
        proof {
            assert(ex0.subrange(0, ex0.len() as int) =~= ex0);
            assert forall|after: DispatchState<Req, Resp, S>, outcome: PollIo<()>, rest: Answers<Req, Resp>| #[trigger]
                self@.run_steps(after, now, left as nat, outcome, rest) implies start.run_steps(
                after,
                now,
                budget as nat,
                outcome,
                since(ex0, ex0) + rest,
            ) by {
                assert(since(ex0, ex0) + rest =~= rest);
            }
        }
        loop
            invariant
                left <= budget,
                start == old(self)@,
                ex0 == old(self).exchanges(),
                extends(self.exchanges(), ex0),
                start.within_limit() ==> self@.within_limit(),
                forall|after: DispatchState<Req, Resp, S>, outcome: PollIo<()>| #[trigger]
                    self@.ran(after, now, left as nat, outcome) ==> start.ran(after, now, budget as nat, outcome),
                forall|after: DispatchState<Req, Resp, S>, outcome: PollIo<()>, rest: Answers<Req, Resp>| #[trigger]
                    self@.run_steps(after, now, left as nat, outcome, rest) ==> start.run_steps(
                        after,
                        now,
                        budget as nat,
                        outcome,
                        since(self.exchanges(), ex0) + rest,
                    ),
            decreases left,
        {
            let ghost before = self@;
            let ghost ex1 = self.exchanges();
            if left == 0 {
                let outcome: PollIo<()> = Poll::Ready(Some(Ok(())));
                proof {
                    assert(self@.ran(self@, now, 0, outcome));
                    let none = Answers::<Req, Resp>::empty();
                    assert(self@.run_steps(self@, now, 0, outcome, none));
                    assert(since(ex1, ex0) + none =~= since(ex1, ex0));
                }
                return outcome;
            }
            let turn = self.poll(now);
            let ghost share = since(self.exchanges(), ex1);
            proof {
                lemma_since_chain(ex0, ex1, self.exchanges());
            }
            match turn {
                Poll::Ready(Some(Ok(_))) => {
                    let ghost budgeted = left as nat;
                    left -= 1;
                    proof {
                        assert forall|after: DispatchState<Req, Resp, S>, outcome: PollIo<()>| #[trigger]
                            self@.ran(after, now, left as nat, outcome) implies start.ran(
                            after,
                            now,
                            budget as nat,
                            outcome,
                        ) by {
                            assert(before.polled(self@, now, turn));
                            assert((budgeted - 1) as nat == left as nat);
                            assert(before.ran(after, now, budgeted, outcome));
                        }
                        assert forall|after: DispatchState<Req, Resp, S>, outcome: PollIo<()>, rest: Answers<Req, Resp>| #[trigger]
                            self@.run_steps(after, now, left as nat, outcome, rest) implies start.run_steps(
                            after,
                            now,
                            budget as nat,
                            outcome,
                            since(self.exchanges(), ex0) + rest,
                        ) by {
                            assert((budgeted - 1) as nat == left as nat);
                            before.lemma_run_steps_turn(now, budgeted, share, rest, self@, turn, after, outcome);
                            assert(since(ex1, ex0) + (share + rest) =~= since(self.exchanges(), ex0) + rest);
                        }
                    }
                },
                _ => {
                    proof {
                        assert(before.polled(self@, now, turn));
                        assert(before.ran(self@, now, left as nat, turn));
                        let none = Answers::<Req, Resp>::empty();
                        before.lemma_run_steps_turn(now, left as nat, share, none, self@, turn, self@, turn);
                        assert(share + none =~= share);
                    }
                    return turn;
                },
            }
        }
    }
}

} // verus!
