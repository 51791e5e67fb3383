//! What holds of every request from the moment it is staged until it is
//! settled, whatever the order of events.

use vstd::prelude::*;
use crate::client::channel::{holds_every_slot, DispatchRequest, DispatchResponse};
use crate::client::replay::Answers;
use crate::transport::Exchange;
use crate::client::in_flight_requests::Completion;
use crate::deadline::expires_first;
use crate::client::pending_requests::{first_open, lemma_first_open, Staged};
use crate::client::state::{
    cancel_frame, first_live, lemma_first_live, lemma_remove_len, request_data, request_frame, DispatchState, PollIo,
};
use crate::client::Config;
use crate::context::Timestamp;
use crate::error::{CallError, DispatchError};
use crate::message::{ClientMessage, Response};
use crate::poll::Poll;

verus! {

/// Whether the caller of `request_id` gave the call up before the dispatcher
/// got to it: the request is not in flight, and wherever it is staged, its
/// response slot is closed.
pub open spec fn given_up_before_dispatch<Req, Resp, S>(state: DispatchState<Req, Resp, S>, request_id: u64) -> bool {
    &&& !state.in_flight.contains_key(request_id)
    &&& forall|k: int|
        0 <= k < state.pending.len() && (#[trigger] state.pending[k]).request.request_id == request_id
            ==> state.pending[k].response_closed
}

/// Whether no frame that `after` has sent beyond those of `before` names the
/// request `request_id`.
pub open spec fn no_frame_about<Req, Resp, S>(
    before: DispatchState<Req, Resp, S>,
    after: DispatchState<Req, Resp, S>,
    request_id: u64,
) -> bool {
    &&& before.sent.len() <= after.sent.len()
    &&& after.sent.subrange(0, before.sent.len() as int) == before.sent
    &&& forall|i: int|
        before.sent.len() <= i < after.sent.len() ==> (#[trigger] after.sent[i]).spec_request_id() != request_id
}

/// How much a dispatcher has left to write or to settle. Every productive
/// step on the outbound side makes it smaller.
pub open spec fn backlog<Req, Resp, S>(state: DispatchState<Req, Resp, S>) -> nat {
    2 * state.pending.len() + state.canceled.len() + state.in_flight.len()
}

/// A new dispatcher has nothing in flight, so it is within its limit.
pub proof fn lemma_initial_within_limit<Req, Resp, S>(config: Config)
    ensures
        DispatchState::<Req, Resp, S>::initial(config).within_limit(),
{
}

/// Staging a request, closing a response slot and staging a cancellation
/// leave the requests in flight as they are.
pub proof fn lemma_limit_kept_by_staging<Req, Resp, S>(
    state: DispatchState<Req, Resp, S>,
    request: DispatchRequest<Req, S>,
    request_id: u64,
)
    requires
        state.within_limit(),
    ensures
        state.stage(request).within_limit(),
        state.close_response(request_id).within_limit(),
        state.cancel(request_id).within_limit(),
{
}

/// A step on the inbound side never brings the number of requests in flight
/// above the limit.
pub proof fn lemma_limit_kept_by_read<Req, Resp, S>(
    before: DispatchState<Req, Resp, S>,
    after: DispatchState<Req, Resp, S>,
    read: PollIo<()>,
)
    requires
        before.within_limit(),
        before.pumped_read(after, read),
    ensures
        after.within_limit(),
{
    if read matches Poll::Ready(Some(Ok(_))) {
        lemma_remove_len(before.in_flight, after.received.last().request_id);
    }
}

/// A step on the outbound side never brings the number of requests in flight
/// above the limit: a request is written only while there is room.
pub proof fn lemma_limit_kept_by_write<Req, Resp, S>(
    before: DispatchState<Req, Resp, S>,
    after: DispatchState<Req, Resp, S>,
    now: Timestamp,
    wrote: PollIo<()>,
)
    requires
        before.within_limit(),
        before.pumped_write(after, now, wrote),
    ensures
        after.within_limit(),
{
    match before.next_cancellation() {
        Some(id) => {
            lemma_remove_len(before.in_flight, id);
        },
        None => {},
    }
    if wrote matches Poll::Ready(Some(Ok(_))) {
        let settled = DispatchState {
            pending: after.pending,
            canceled: after.canceled,
            writable: after.writable,
            ..before
        };
        if settled.expired(after, now) {
            let id = choose|id: u64|
                expires_first(settled.in_flight, id) && after.in_flight == settled.in_flight.remove(id);
            lemma_remove_len(before.in_flight, id);
        }
    }
}

/// At all times the number of requests in flight is at most the configured
/// limit: a turn of the dispatcher that starts within the limit ends within it.
pub proof fn lemma_limit_kept_by_turn<Req, Resp, S>(
    before: DispatchState<Req, Resp, S>,
    after: DispatchState<Req, Resp, S>,
    now: Timestamp,
    outcome: PollIo<()>,
)
    requires
        before.within_limit(),
        before.polled(after, now, outcome),
    ensures
        after.within_limit(),
{
    let (mid, read, wrote) = choose|mid: DispatchState<Req, Resp, S>, read: PollIo<()>, wrote: PollIo<()>|
        before.turned(mid, read, wrote, after, now, outcome);
    lemma_limit_kept_by_read(before, mid, read);
    if !DispatchState::<Req, Resp, S>::failed(read) {
        lemma_limit_kept_by_write(mid, after, now, wrote);
    }
}

/// The same for a run of any number of turns.
pub proof fn lemma_limit_kept_by_run<Req, Resp, S>(
    before: DispatchState<Req, Resp, S>,
    after: DispatchState<Req, Resp, S>,
    now: Timestamp,
    budget: nat,
    outcome: PollIo<()>,
)
    requires
        before.within_limit(),
        before.ran(after, now, budget, outcome),
    ensures
        after.within_limit(),
    decreases budget,
{
    if budget > 0 {
        let (mid, turn) = choose|mid: DispatchState<Req, Resp, S>, turn: PollIo<()>|
            {
                &&& #[trigger] before.polled(mid, now, turn)
                &&& if DispatchState::<Req, Resp, S>::progressed(turn) {
                    mid.ran(after, now, (budget - 1) as nat, outcome)
                } else {
                    after == mid && outcome == turn
                }
            };
        lemma_limit_kept_by_turn(before, mid, now, turn);
        if DispatchState::<Req, Resp, S>::progressed(turn) {
            lemma_limit_kept_by_run(mid, after, now, (budget - 1) as nat, outcome);
        }
    }
}

/// Once the caller of a staged request has closed its response slot, the
/// request counts as given up, unless it is in flight already.
pub proof fn lemma_close_response_gives_up<Req, Resp, S>(state: DispatchState<Req, Resp, S>, request_id: u64)
    requires
        !state.in_flight.contains_key(request_id),
    ensures
        given_up_before_dispatch(state.close_response(request_id), request_id),
{
}

/// A cancellation staged for a request that was given up before dispatch
/// changes nothing about that.
pub proof fn lemma_given_up_kept_by_cancel<Req, Resp, S>(
    state: DispatchState<Req, Resp, S>,
    request_id: u64,
    canceled: u64,
)
    requires
        given_up_before_dispatch(state, request_id),
    ensures
        given_up_before_dispatch(state.cancel(canceled), request_id),
{
}

/// A step on the inbound side does not bring a request into flight.
pub proof fn lemma_given_up_kept_by_read<Req, Resp, S>(
    before: DispatchState<Req, Resp, S>,
    after: DispatchState<Req, Resp, S>,
    read: PollIo<()>,
    request_id: u64,
)
    requires
        given_up_before_dispatch(before, request_id),
        before.pumped_read(after, read),
    ensures
        given_up_before_dispatch(after, request_id),
        no_frame_about(before, after, request_id),
{
    assert(after.sent.subrange(0, before.sent.len() as int) =~= before.sent);
}

/// A request whose caller gave up before the dispatcher got to it is never
/// written: a step on the outbound side neither brings it into flight nor
/// sends a frame that names it, be it a request or a cancellation.
pub proof fn lemma_given_up_never_written<Req, Resp, S>(
    before: DispatchState<Req, Resp, S>,
    after: DispatchState<Req, Resp, S>,
    now: Timestamp,
    wrote: PollIo<()>,
    request_id: u64,
)
    requires
        given_up_before_dispatch(before, request_id),
        before.pumped_write(after, now, wrote),
    ensures
        given_up_before_dispatch(after, request_id),
        no_frame_about(before, after, request_id),
{
    lemma_first_open(before.pending);
    lemma_first_live(before.canceled, before.in_flight);
    let k = first_open(before.pending);
    assert forall|i: int|
        0 <= i < before.pending_rest().len() && (#[trigger] before.pending_rest()[i]).request.request_id
            == request_id implies before.pending_rest()[i].response_closed by {
        assert(before.pending_rest()[i] == before.pending[k + 1 + i]);
    }
    assert(after.pending == before.pending || after.pending == before.pending_rest() || after.pending == Seq::<
        Staged<Req, S>,
    >::empty());
    assert(after.sent.subrange(0, before.sent.len() as int) =~= before.sent);
}

/// The same for a whole turn of the dispatcher.
pub proof fn lemma_given_up_kept_by_turn<Req, Resp, S>(
    before: DispatchState<Req, Resp, S>,
    after: DispatchState<Req, Resp, S>,
    now: Timestamp,
    outcome: PollIo<()>,
    request_id: u64,
)
    requires
        given_up_before_dispatch(before, request_id),
        before.polled(after, now, outcome),
    ensures
        given_up_before_dispatch(after, request_id),
        no_frame_about(before, after, request_id),
{
    let (mid, read, wrote) = choose|mid: DispatchState<Req, Resp, S>, read: PollIo<()>, wrote: PollIo<()>|
        before.turned(mid, read, wrote, after, now, outcome);
    lemma_given_up_kept_by_read(before, mid, read, request_id);
    if !DispatchState::<Req, Resp, S>::failed(read) {
        lemma_given_up_never_written(mid, after, now, wrote, request_id);
        assert(after.sent.subrange(0, before.sent.len() as int) =~= before.sent) by {
            assert(mid.sent == before.sent);
        }
    }
}

/// The same for a run of any number of turns: however long the dispatcher
/// runs, a request that was given up before dispatch never comes into flight
/// and no frame is sent about it.
pub proof fn lemma_given_up_kept_by_run<Req, Resp, S>(
    before: DispatchState<Req, Resp, S>,
    after: DispatchState<Req, Resp, S>,
    now: Timestamp,
    budget: nat,
    outcome: PollIo<()>,
    request_id: u64,
)
    requires
        given_up_before_dispatch(before, request_id),
        before.ran(after, now, budget, outcome),
    ensures
        given_up_before_dispatch(after, request_id),
        no_frame_about(before, after, request_id),
    decreases budget,
{
    if budget > 0 {
        let (mid, turn) = choose|mid: DispatchState<Req, Resp, S>, turn: PollIo<()>|
            {
                &&& #[trigger] before.polled(mid, now, turn)
                &&& if DispatchState::<Req, Resp, S>::progressed(turn) {
                    mid.ran(after, now, (budget - 1) as nat, outcome)
                } else {
                    after == mid && outcome == turn
                }
            };
        lemma_given_up_kept_by_turn(before, mid, now, turn, request_id);
        if DispatchState::<Req, Resp, S>::progressed(turn) {
            lemma_given_up_kept_by_run(mid, after, now, (budget - 1) as nat, outcome, request_id);
            assert(after.sent.subrange(0, before.sent.len() as int) =~= before.sent) by {
                assert(mid.sent.subrange(0, before.sent.len() as int) == before.sent);
                assert(after.sent.subrange(0, mid.sent.len() as int) == mid.sent);
                assert forall|i: int| 0 <= i < before.sent.len() implies after.sent[i] == before.sent[i] by {
                    assert(after.sent.subrange(0, mid.sent.len() as int)[i] == mid.sent[i]);
                    assert(mid.sent.subrange(0, before.sent.len() as int)[i] == before.sent[i]);
                }
            }
            assert forall|i: int| before.sent.len() <= i < after.sent.len() implies (#[trigger] after.sent[i]).spec_request_id()
                != request_id by {
                if i < mid.sent.len() {
                    assert(after.sent.subrange(0, mid.sent.len() as int)[i] == mid.sent[i]);
                }
            }
        }
    } else {
        assert(after.sent.subrange(0, before.sent.len() as int) =~= before.sent);
    }
}

/// The cancellation of a request in flight is not lost. While the request is
/// in flight and its cancellation waits, a step on the outbound side either
/// leaves both as they are, or ends with the request out of flight in one of
/// three ways: the cancel frame for it, with the trace context it was sent
/// with, was accepted by the transport; or its deadline settled it, and then
/// nothing is sent; or the transport failed.
pub proof fn lemma_cancellation_not_lost<Req, Resp, S>(
    before: DispatchState<Req, Resp, S>,
    after: DispatchState<Req, Resp, S>,
    now: Timestamp,
    wrote: PollIo<()>,
    request_id: u64,
)
    requires
        before.in_flight.contains_key(request_id),
        before.canceled.contains(request_id),
        before.pumped_write(after, now, wrote),
    ensures
        ({
            ||| after.in_flight.contains_key(request_id) && after.canceled.contains(request_id)
            ||| {
                &&& !after.in_flight.contains_key(request_id)
                &&& after.sent == before.sent.push(cancel_frame(before.in_flight[request_id].ctx, request_id))
            }
            ||| {
                &&& !after.in_flight.contains_key(request_id)
                &&& after.sent == before.sent
                &&& before.in_flight[request_id].ctx.deadline.spec_elapsed(now)
            }
            ||| wrote matches Poll::Ready(Some(Err(DispatchError::Write(_))))
        }),
{
    lemma_first_live(before.canceled, before.in_flight);
    let k = first_live(before.canceled, before.in_flight);
    let at = choose|i: int| 0 <= i < before.canceled.len() && before.canceled[i] == request_id;
    // The cancellation is not among those dropped as stale.
    assert(k <= at);
    assert(before.next_cancellation() is Some);
    let next = before.canceled[k];
    if next != request_id {
        assert(before.canceled_rest()[at - k - 1] == request_id);
        assert(before.canceled_rest().contains(request_id));
    }
    if wrote matches Poll::Ready(Some(Ok(_))) {
        let settled = DispatchState {
            pending: after.pending,
            canceled: after.canceled,
            writable: after.writable,
            ..before
        };
        if before.cancel_stage_passed(after.canceled) && settled.expired(after, now) {
            let id = choose|id: u64|
                {
                    &&& expires_first(settled.in_flight, id)
                    &&& settled.in_flight[id].ctx.deadline.spec_elapsed(now)
                    &&& after == DispatchState { in_flight: settled.in_flight.remove(id), ..settled }
                };
            assert(after.in_flight == before.in_flight.remove(id));
        }
    }
}

/// Every productive step on the outbound side consumes some of the backlog:
/// a staged request, a cancellation or a request in flight. So with nothing
/// new being staged, only finitely many such steps lie before the
/// cancellation of a request in flight is reached.
pub proof fn lemma_progress_consumes_backlog<Req, Resp, S>(
    before: DispatchState<Req, Resp, S>,
    after: DispatchState<Req, Resp, S>,
    now: Timestamp,
    wrote: PollIo<()>,
)
    requires
        before.in_flight.dom().finite(),
        before.pumped_write(after, now, wrote),
        wrote matches Poll::Ready(Some(Ok(_))),
    ensures
        backlog(after) < backlog(before),
{
    lemma_first_open(before.pending);
    lemma_first_live(before.canceled, before.in_flight);
    assert(after.pending.len() <= before.pending.len());
    match before.next_cancellation() {
        Some(id) => {
            lemma_remove_len(before.in_flight, id);
        },
        None => {},
    }
    let settled = DispatchState {
        pending: after.pending,
        canceled: after.canceled,
        writable: after.writable,
        ..before
    };
    if before.request_stage_passed(after.pending) && before.cancel_stage_passed(after.canceled) && settled.expired(
        after,
        now,
    ) {
        let id = choose|id: u64|
            expires_first(settled.in_flight, id) && after.in_flight == settled.in_flight.remove(id);
        lemma_remove_len(before.in_flight, id);
    }
}

/// A response is routed by its identifier alone. Two responses to different
/// requests in flight reach the slots registered under their own identifiers
/// in whichever order they arrive, and leave the same requests in flight.
pub proof fn lemma_completion_by_id<Req, Resp, S>(
    state: DispatchState<Req, Resp, S>,
    first: Response<Resp>,
    second: Response<Resp>,
)
    requires
        state.in_flight.contains_key(first.request_id),
        state.in_flight.contains_key(second.request_id),
        first.request_id != second.request_id,
    ensures
        state.complete(first).complete(second).in_flight == state.complete(second).complete(first).in_flight,
        state.complete(first).complete(second).completed == state.completed.push(
            Completion { response_completion: state.in_flight[first.request_id].response_completion, response: first },
        ).push(
            Completion {
                response_completion: state.in_flight[second.request_id].response_completion,
                response: second,
            },
        ),
        state.complete(second).complete(first).completed == state.completed.push(
            Completion {
                response_completion: state.in_flight[second.request_id].response_completion,
                response: second,
            },
        ).push(
            Completion { response_completion: state.in_flight[first.request_id].response_completion, response: first },
        ),
{
    assert(state.in_flight.remove(first.request_id).remove(second.request_id) =~= state.in_flight.remove(
        second.request_id,
    ).remove(first.request_id));
}

/// A request is settled at most once. After a response to it was routed,
/// a further response with the same identifier delivers nothing and changes
/// nothing.
pub proof fn lemma_no_second_delivery<Req, Resp, S>(
    state: DispatchState<Req, Resp, S>,
    first: Response<Resp>,
    second: Response<Resp>,
)
    requires
        first.request_id == second.request_id,
    ensures
        !state.complete(first).in_flight.contains_key(second.request_id),
        state.complete(first).complete(second) == state.complete(first),
{
}

/// A response to a request that is not in flight is dropped: its caller has
/// given up or its deadline has passed.
pub proof fn lemma_unknown_response_dropped<Req, Resp, S>(state: DispatchState<Req, Resp, S>, response: Response<Resp>)
    requires
        !state.in_flight.contains_key(response.request_id),
    ensures
        state.complete(response) == state,
{
}

/// A request leaves flight on the inbound side in one way only: a response
/// that carries its identifier was read and is on its way into its slot.
pub proof fn lemma_settled_by_read<Req, Resp, S>(
    before: DispatchState<Req, Resp, S>,
    after: DispatchState<Req, Resp, S>,
    read: PollIo<()>,
    request_id: u64,
)
    requires
        before.pumped_read(after, read),
        before.in_flight.contains_key(request_id),
        !after.in_flight.contains_key(request_id),
    ensures
        after.received.len() == before.received.len() + 1,
        after.received.last().request_id == request_id,
        after.completed == before.completed.push(
            Completion {
                response_completion: before.in_flight[request_id].response_completion,
                response: after.received.last(),
            },
        ),
        after.sent == before.sent,
{
}

/// A request leaves flight on the outbound side in one of two ways, and in
/// neither is anything delivered into its slot. Either its cancellation was
/// taken from the queue: then the caller has given up, and the cancel frame
/// is what a productive step sends. Or its deadline has passed: then the slot
/// is dropped and nothing is sent. A productive step does exactly one of the
/// two.
pub proof fn lemma_settled_by_write<Req, Resp, S>(
    before: DispatchState<Req, Resp, S>,
    after: DispatchState<Req, Resp, S>,
    now: Timestamp,
    wrote: PollIo<()>,
    request_id: u64,
)
    requires
        before.pumped_write(after, now, wrote),
        before.in_flight.contains_key(request_id),
        !after.in_flight.contains_key(request_id),
    ensures
        after.completed == before.completed,
        ({
            let cancelled = {
                &&& before.next_cancellation() == Some(request_id)
                &&& (wrote matches Poll::Ready(Some(Ok(_))) ==> after.sent == before.sent.push(
                    cancel_frame(before.in_flight[request_id].ctx, request_id),
                ))
            };
            let timed_out = {
                &&& before.in_flight[request_id].ctx.deadline.spec_elapsed(now)
                &&& expires_first(before.in_flight, request_id)
                &&& after.sent == before.sent
                &&& wrote matches Poll::Ready(Some(Ok(_)))
            };
            &&& cancelled || timed_out
            &&& (wrote matches Poll::Ready(Some(Ok(_)))) ==> !(cancelled && timed_out)
        }),
{
    lemma_first_live(before.canceled, before.in_flight);
    if wrote matches Poll::Ready(Some(Ok(_))) {
        let settled = DispatchState {
            pending: after.pending,
            canceled: after.canceled,
            writable: after.writable,
            ..before
        };
        if before.request_stage_passed(after.pending) && before.cancel_stage_passed(after.canceled)
            && settled.expired(after, now) {
            let id = choose|id: u64|
                {
                    &&& expires_first(settled.in_flight, id)
                    &&& settled.in_flight[id].ctx.deadline.spec_elapsed(now)
                    &&& after == DispatchState { in_flight: settled.in_flight.remove(id), ..settled }
                };
            assert(id == request_id);
        }
    }
    let frame = cancel_frame::<Req>(before.in_flight[request_id].ctx, request_id);
    assert(before.sent.push(frame).len() == before.sent.len() + 1);
}

/// What a caller sees of a call is either a payload or an error, never both
/// and never neither: a payload exactly when a response with a payload
/// reached the slot; the server's error, kind and detail as they came, when
/// a response with an error did; and for a slot closed without a value the
/// expiry of the deadline if it has passed, else the loss of the response.
pub proof fn lemma_one_outcome<Resp>(received: Option<Response<Resp>>, deadline: Timestamp, now: Timestamp)
    ensures
        DispatchResponse::spec_resolve(received, deadline, now) is Ok <==> (received matches Some(response)
            && response.message is Ok),
        match received {
            Some(response) => match response.message {
                Ok(payload) => DispatchResponse::spec_resolve(received, deadline, now) == Ok::<Resp, CallError>(
                    payload,
                ),
                Err(error) => DispatchResponse::spec_resolve(received, deadline, now) == Err::<Resp, CallError>(
                    CallError::Server(error),
                ),
            },
            None => DispatchResponse::spec_resolve(received, deadline, now) == Err::<Resp, CallError>(
                if deadline.nanos <= now.nanos {
                    CallError::DeadlineExceeded
                } else {
                    CallError::ResponseLost
                },
            ),
        },
{
}

/// A call that the dispatcher settled by its deadline resolves to
/// `DeadlineExceeded`, whenever its caller looks after that, and never to a
/// payload: the step that settles it drops the slot at a moment at which the
/// deadline has passed, and time does not go back.
pub proof fn lemma_expiry_resolves_to_deadline_exceeded<Req, Resp, S>(
    before: DispatchState<Req, Resp, S>,
    after: DispatchState<Req, Resp, S>,
    now: Timestamp,
    wrote: PollIo<()>,
    request_id: u64,
    later: Timestamp,
)
    requires
        before.pumped_write(after, now, wrote),
        before.in_flight.contains_key(request_id),
        !after.in_flight.contains_key(request_id),
        before.next_cancellation() != Some(request_id),
        now.nanos <= later.nanos,
    ensures
        after.completed == before.completed,
        DispatchResponse::spec_resolve::<Resp>(None, before.in_flight[request_id].ctx.deadline, later) == Err::<
            Resp,
            CallError,
        >(CallError::DeadlineExceeded),
{
    lemma_settled_by_write(before, after, now, wrote, request_id);
}

/// A call answered by a server that echoes the payload yields that payload.
/// The request frame carries the payload and the identifier of the staged
/// call; the response that echoes the frame is routed to the slot of that
/// call; and the caller that takes it from the slot sees the payload it sent.
pub proof fn lemma_echo_round_trip<T, S>(state: DispatchState<T, T, S>, request: DispatchRequest<T, S>)
    requires
        !state.in_flight.contains_key(request.request_id),
    ensures
        ({
            let written = DispatchState {
                in_flight: state.in_flight.insert(request.request_id, request_data(request)),
                sent: state.sent.push(request_frame(request)),
                writable: false,
                ..state
            };
            let frame = request_frame(request)->Request_0;
            let echo = Response { request_id: frame.id, message: Ok(frame.message) };
            let routed = written.complete(echo);
            &&& state.wrote_request(written, request)
            &&& routed.in_flight == state.in_flight
            &&& routed.completed == state.completed.push(
                Completion { response_completion: request.response_completion, response: echo },
            )
            &&& forall|deadline: Timestamp, now: Timestamp|
                DispatchResponse::spec_resolve(Some(echo), deadline, now) == Ok::<T, CallError>(request.request)
        }),
{
    let written = DispatchState {
        in_flight: state.in_flight.insert(request.request_id, request_data(request)),
        sent: state.sent.push(request_frame(request)),
        writable: false,
        ..state
    };
    assert(written.in_flight.remove(request.request_id) =~= state.in_flight);
}

/// No caller is left waiting when a dispatcher is given up: the slot of every
/// request it still held is among those handed out for closing, and a caller
/// whose slot is closed without a value sees an error, never a payload and
/// never nothing.
pub proof fn lemma_no_caller_left_waiting<Req, Resp, S>(
    state: DispatchState<Req, Resp, S>,
    slots: Seq<S>,
    request_id: u64,
    deadline: Timestamp,
    now: Timestamp,
)
    requires
        holds_every_slot(state, slots),
        state.in_flight.contains_key(request_id),
    ensures
        slots.contains(state.in_flight[request_id].response_completion),
        DispatchResponse::spec_resolve::<Resp>(None, deadline, now) is Err,
{
    let slot = state.in_flight[request_id].response_completion;
    let i = choose|i: int| state.pending.len() <= i < slots.len() && slots[i] == slot;
    assert(slots[i] == slot);
}

/// With a transport that has room and accepts the frame, the cancellation of
/// a request in flight is written by the very next write pump that has no
/// request to write: the cancel frame, with the trace context the request
/// was sent with, is the one frame the pump sends, and the request is out of
/// flight.
pub proof fn lemma_cancel_written_when_ready<Req, Resp, S>(
    state: DispatchState<Req, Resp, S>,
    now: Timestamp,
    request_id: u64,
    answers: Answers<Req, Resp>,
)
    requires
        state.at_capacity() || state.next_request() is None,
        state.next_cancellation() == Some(request_id),
        ({
            let ready: Exchange<ClientMessage<Req>, Response<Resp>> = Exchange::Asked(Poll::Ready(Ok(())));
            let accepted: Exchange<ClientMessage<Req>, Response<Resp>> = Exchange::Sent(
                cancel_frame(state.in_flight[request_id].ctx, request_id),
                Ok(()),
            );
            answers == if state.at_capacity() {
                seq![ready, accepted]
            } else {
                seq![ready, ready, accepted]
            }
        }),
    ensures
        ({
            let step = state.write_step(now, answers);
            &&& step.valid
            &&& step.asked == answers.len()
            &&& step.result == Poll::<Option<Result<(), DispatchError>>>::Ready(Some(Ok(())))
            &&& step.state.sent == state.sent.push(cancel_frame(state.in_flight[request_id].ctx, request_id))
            &&& !step.state.in_flight.contains_key(request_id)
        }),
{
    reveal(DispatchState::write_step);
    reveal(DispatchState::cancel_stage);
    lemma_first_live(state.canceled, state.in_flight);
    let first = state.next_request_step(answers);
    let rest = answers.skip(first.asked as int);
    if state.at_capacity() {
        assert(rest =~= answers);
    } else {
        assert(rest =~= seq![answers[1], answers[2]]);
    }
    let second = first.state.next_cancellation_step(rest);
    assert(rest.skip(second.asked as int) =~= seq![answers[answers.len() - 1]]);
}

/// Whether the transport did its part in `exchange`, as far as the request
/// `request_id` goes: it had room when asked, accepted what it was handed,
/// and yielded no response to that request and no error.
pub open spec fn willing<Req, Resp>(exchange: Exchange<ClientMessage<Req>, Response<Resp>>, request_id: u64) -> bool {
    match exchange {
        Exchange::Asked(answer) => answer matches Poll::Ready(Ok(_)),
        Exchange::Sent(_, answer) => answer is Ok,
        Exchange::Flushed(answer) => !(answer matches Poll::Ready(Err(_))),
        Exchange::Read(answer) => match answer {
            Poll::Pending => true,
            Poll::Ready(Some(Ok(response))) => response.request_id != request_id,
            _ => false,
        },
    }
}

/// Whether the transport did its part in every one of `answers`.
pub open spec fn cooperative<Req, Resp>(answers: Answers<Req, Resp>, request_id: u64) -> bool {
    forall|i: int| 0 <= i < answers.len() ==> willing(#[trigger] answers[i], request_id)
}

/// Whether the request `request_id`, sent with `ctx`, is in flight and its
/// cancellation waits, with the inbound stream still open.
pub open spec fn cancellation_waits<Req, Resp, S>(
    state: DispatchState<Req, Resp, S>,
    request_id: u64,
    ctx: crate::context::Context,
) -> bool {
    &&& !state.done
    &&& state.in_flight.contains_key(request_id)
    &&& state.in_flight[request_id].ctx == ctx
    &&& state.canceled.contains(request_id)
}

/// Whether the cancellation of `request_id` was dealt with between `before`
/// and `after`: its frame was sent, or the deadline of the request has
/// passed.
pub open spec fn cancellation_settled<Req, Resp, S>(
    before: DispatchState<Req, Resp, S>,
    after: DispatchState<Req, Resp, S>,
    request_id: u64,
    ctx: crate::context::Context,
    now: Timestamp,
) -> bool {
    ||| ctx.deadline.spec_elapsed(now)
    ||| exists|i: int|
        before.sent.len() <= i < after.sent.len() && #[trigger] after.sent[i] == cancel_frame::<Req>(ctx, request_id)
}

/// One turn over a transport that does its part either writes something and
/// leaves the cancellation waiting, or deals with it. Nothing that was sent
/// is taken back.
pub proof fn lemma_turn_deals_with_cancellation<Req, Resp, S>(
    before: DispatchState<Req, Resp, S>,
    now: Timestamp,
    request_id: u64,
    ctx: crate::context::Context,
    answers: Answers<Req, Resp>,
)
    requires
        cancellation_waits(before, request_id, ctx),
        before.turn_step(now, answers).valid,
        before.turn_step(now, answers).asked == answers.len(),
        cooperative(answers, request_id),
        !DispatchState::<Req, Resp, S>::failed(before.turn_step(now, answers).result),
    ensures
        ({
            let turn = before.turn_step(now, answers);
            &&& DispatchState::<Req, Resp, S>::progressed(turn.result)
            &&& before.sent.len() <= turn.state.sent.len()
            &&& turn.state.sent.subrange(0, before.sent.len() as int) == before.sent
            &&& cancellation_waits(turn.state, request_id, ctx) || cancellation_settled(
                before,
                turn.state,
                request_id,
                ctx,
                now,
            )
        }),
{
    reveal(DispatchState::turn_step);
    reveal(DispatchState::write_step);
    reveal(DispatchState::cancel_stage);
    let read = before.read_step(answers);
    let mid = read.state;
    assert(cancellation_waits(mid, request_id, ctx)) by {
        assert(willing(answers[0], request_id));
    }
    let rest = answers.skip(read.asked as int);
    assert forall|i: int| 0 <= i < rest.len() implies willing(#[trigger] rest[i], request_id) by {
        assert(rest[i] == answers[read.asked + i]);
    }
    lemma_first_live(mid.canceled, mid.in_flight);
    let k = first_live(mid.canceled, mid.in_flight);
    let at = choose|i: int| 0 <= i < mid.canceled.len() && mid.canceled[i] == request_id;
    assert(k <= at);
    let first = mid.next_request_step(rest);
    if !mid.at_capacity() {
        assert(willing(rest[0], request_id));
    }
    let turn = before.turn_step(now, answers);
    let after = turn.state;
    match first.result {
        Poll::Ready(Some(Ok(request))) => {
            let tail = rest.skip(first.asked as int);
            if !first.state.in_flight.contains_key(request.request_id) {
                assert(willing(tail[0], request_id)) by {
                    assert(tail[0] == rest[first.asked as int]);
                }
                assert(after.sent =~= before.sent.push(request_frame(request)));
                assert(after.sent.subrange(0, before.sent.len() as int) =~= before.sent);
            }
        },
        Poll::Ready(Some(Err(_))) => {},
        _ => {
            let tail = rest.skip(first.asked as int);
            assert forall|i: int| 0 <= i < tail.len() implies willing(#[trigger] tail[i], request_id) by {
                assert(tail[i] == rest[first.asked + i]);
            }
            assert(willing(tail[0], request_id));
            let second = first.state.next_cancellation_step(tail);
            let next = mid.canceled[k];
            let last = tail.skip(second.asked as int);
            assert(willing(last[0], request_id)) by {
                assert(last[0] == tail[second.asked as int]);
            }
            if next == request_id {
                let frame = cancel_frame::<Req>(ctx, request_id);
                assert(after.sent =~= before.sent.push(frame));
                assert(after.sent[before.sent.len() as int] == frame);
                assert(after.sent.subrange(0, before.sent.len() as int) =~= before.sent);
            } else {
                assert(mid.canceled_rest()[at - k - 1] == request_id);
                assert(after.sent.subrange(0, before.sent.len() as int) =~= before.sent);
            }
        },
    }
}

/// A turn takes nothing back of what was sent.
pub proof fn lemma_turn_keeps_sent<Req, Resp, S>(
    before: DispatchState<Req, Resp, S>,
    now: Timestamp,
    answers: Answers<Req, Resp>,
)
    ensures
        before.sent.len() <= before.turn_step(now, answers).state.sent.len(),
        before.turn_step(now, answers).state.sent.subrange(0, before.sent.len() as int) == before.sent,
{
    reveal(DispatchState::turn_step);
    reveal(DispatchState::write_step);
    reveal(DispatchState::cancel_stage);
    let after = before.turn_step(now, answers).state;
    assert(after.sent.subrange(0, before.sent.len() as int) =~= before.sent);
}

/// A run takes nothing back of what was sent.
pub proof fn lemma_run_keeps_sent<Req, Resp, S>(
    before: DispatchState<Req, Resp, S>,
    after: DispatchState<Req, Resp, S>,
    now: Timestamp,
    budget: nat,
    outcome: PollIo<()>,
    answers: Answers<Req, Resp>,
)
    requires
        before.run_steps(after, now, budget, outcome, answers),
    ensures
        before.sent.len() <= after.sent.len(),
        after.sent.subrange(0, before.sent.len() as int) == before.sent,
    decreases budget,
{
    if budget == 0 {
        assert(after.sent.subrange(0, before.sent.len() as int) =~= before.sent);
    } else {
        let (share, mid, turn) = choose|share: nat, mid: DispatchState<Req, Resp, S>, turn: PollIo<()>|
            {
                &&& share <= answers.len()
                &&& #[trigger] before.turn_step(now, answers.take(share as int)).describes(
                    mid,
                    turn,
                    answers.take(share as int),
                )
                &&& if DispatchState::<Req, Resp, S>::progressed(turn) {
                    mid.run_steps(after, now, (budget - 1) as nat, outcome, answers.skip(share as int))
                } else {
                    after == mid && outcome == turn && share == answers.len()
                }
            };
        lemma_turn_keeps_sent(before, now, answers.take(share as int));
        if DispatchState::<Req, Resp, S>::progressed(turn) {
            lemma_run_keeps_sent(mid, after, now, (budget - 1) as nat, outcome, answers.skip(share as int));
            assert(after.sent.subrange(0, before.sent.len() as int) =~= before.sent) by {
                assert forall|i: int| 0 <= i < before.sent.len() implies after.sent[i] == before.sent[i] by {
                    assert(after.sent.subrange(0, mid.sent.len() as int)[i] == mid.sent[i]);
                    assert(mid.sent.subrange(0, before.sent.len() as int)[i] == before.sent[i]);
                }
            }
        }
    }
}

/// A caller that gives a call up after dispatch gets its cancel frame onto
/// the transport, provided the transport does its part. Let the request be in
/// flight with its cancellation staged and the inbound stream open, and let
/// the dispatcher run, turn after turn, until nothing more can be done, over
/// a transport that has room when asked, accepts what it is handed and yields
/// neither an error nor a response to this request. Then the cancel frame for
/// the request, with the trace context it was sent with, is among the frames
/// sent in that run, unless the deadline of the request has passed by then.
pub proof fn lemma_cancellation_is_written<Req, Resp, S>(
    before: DispatchState<Req, Resp, S>,
    after: DispatchState<Req, Resp, S>,
    now: Timestamp,
    budget: nat,
    outcome: PollIo<()>,
    answers: Answers<Req, Resp>,
    request_id: u64,
    ctx: crate::context::Context,
)
    requires
        cancellation_waits(before, request_id, ctx),
        before.run_steps(after, now, budget, outcome, answers),
        cooperative(answers, request_id),
        !DispatchState::<Req, Resp, S>::progressed(outcome),
        !DispatchState::<Req, Resp, S>::failed(outcome),
    ensures
        cancellation_settled(before, after, request_id, ctx, now),
    decreases budget,
{
    if budget > 0 {
        let (share, mid, turn) = choose|share: nat, mid: DispatchState<Req, Resp, S>, turn: PollIo<()>|
            {
                &&& share <= answers.len()
                &&& #[trigger] before.turn_step(now, answers.take(share as int)).describes(
                    mid,
                    turn,
                    answers.take(share as int),
                )
                &&& if DispatchState::<Req, Resp, S>::progressed(turn) {
                    mid.run_steps(after, now, (budget - 1) as nat, outcome, answers.skip(share as int))
                } else {
                    after == mid && outcome == turn && share == answers.len()
                }
            };
        let first = answers.take(share as int);
        let rest = answers.skip(share as int);
        assert forall|i: int| 0 <= i < first.len() implies willing(#[trigger] first[i], request_id) by {
            assert(first[i] == answers[i]);
        }
        assert forall|i: int| 0 <= i < rest.len() implies willing(#[trigger] rest[i], request_id) by {
            assert(rest[i] == answers[share + i]);
        }
        lemma_turn_deals_with_cancellation(before, now, request_id, ctx, first);
        lemma_run_keeps_sent(mid, after, now, (budget - 1) as nat, outcome, rest);
        if cancellation_waits(mid, request_id, ctx) {
            lemma_cancellation_is_written(mid, after, now, (budget - 1) as nat, outcome, rest, request_id, ctx);
            if !ctx.deadline.spec_elapsed(now) {
                let i = choose|i: int|
                    mid.sent.len() <= i < after.sent.len() && #[trigger] after.sent[i] == cancel_frame::<Req>(
                        ctx,
                        request_id,
                    );
                assert(before.sent.len() <= i < after.sent.len() && after.sent[i] == cancel_frame::<Req>(ctx, request_id));
            }
        } else if !ctx.deadline.spec_elapsed(now) {
            let i = choose|i: int|
                before.sent.len() <= i < mid.sent.len() && #[trigger] mid.sent[i] == cancel_frame::<Req>(
                    ctx,
                    request_id,
                );
            assert(after.sent.subrange(0, mid.sent.len() as int)[i] == mid.sent[i]);
            assert(before.sent.len() <= i < after.sent.len() && after.sent[i] == cancel_frame::<Req>(ctx, request_id));
        }
    }
}

} // verus!
