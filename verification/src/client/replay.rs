//! What the dispatcher does with each answer of the transport: for every
//! step, the state it leaves and the result it gives, as a function of the
//! state it starts from and of what the transport answered on the way.

use vstd::prelude::*;
use crate::client::channel::DispatchRequest;
use crate::client::state::{cancel_frame, request_data, request_frame, DispatchState, PollIo};
use crate::context::{Context, Timestamp};
use crate::deadline::{expires_first, lemma_expires_first_unique};
use crate::error::{DispatchError, TransportError};
use crate::message::{ClientMessage, Response};
use crate::poll::Poll;
use crate::transport::{extends, lemma_writable_step_prefix, writable_step, Exchange};

verus! {

/// The exchanges of a dispatcher with its transport.
pub type Answers<Req, Resp> = Seq<Exchange<ClientMessage<Req>, Response<Resp>>>;

/// What a step comes to: the state it leaves, its result, how many exchanges
/// with the transport it made, and whether the exchanges it was given are
/// those it makes.
pub struct Step<Req, Resp, S, T> {
    pub state: DispatchState<Req, Resp, S>,
    pub result: T,
    pub asked: nat,
    pub valid: bool,
}

impl<Req, Resp, S, T> Step<Req, Resp, S, T> {
    /// Whether this is the step that made exactly the exchanges `answers`,
    /// left `state` and gave `result`.
    pub open spec fn describes(self, state: DispatchState<Req, Resp, S>, result: T, answers: Answers<Req, Resp>) -> bool {
        &&& self.valid
        &&& self.state == state
        &&& self.result == result
        &&& self.asked == answers.len()
    }
}

impl<Req, Resp, S> DispatchState<Req, Resp, S> {
    /// The read pump. Past the end of the stream the transport is left alone.
    /// Else it is asked once: a response is routed; an error is the pump's
    /// error; the end of the stream is noted; and a pending transport leaves
    /// the pump pending.
    pub open spec fn read_step(self, answers: Answers<Req, Resp>) -> Step<Req, Resp, S, PollIo<()>> {
        let invalid = Step { state: self, result: Poll::Pending, asked: 0, valid: false };
        if self.done {
            Step { state: self, result: Poll::Ready(None), asked: 0, valid: true }
        } else if answers.len() < 1 {
            invalid
        } else {
            match answers[0] {
                Exchange::Read(Poll::Ready(Some(Ok(response)))) => Step {
                    state: DispatchState { received: self.received.push(response), ..self.complete(response) },
                    result: Poll::Ready(Some(Ok(()))),
                    asked: 1,
                    valid: true,
                },
                Exchange::Read(Poll::Ready(Some(Err(e)))) => Step {
                    state: self,
                    result: Poll::Ready(Some(Err(DispatchError::Read(e)))),
                    asked: 1,
                    valid: true,
                },
                Exchange::Read(Poll::Ready(None)) => Step {
                    state: DispatchState { done: true, ..self },
                    result: Poll::Ready(None),
                    asked: 1,
                    valid: true,
                },
                Exchange::Read(Poll::Pending) => Step { state: self, result: Poll::Pending, asked: 1, valid: true },
                _ => invalid,
            }
        }
    }

    /// Asking the transport for room for one more frame.
    pub open spec fn ready_step(self, answers: Answers<Req, Resp>) -> Step<
        Req,
        Resp,
        S,
        Poll<Result<(), TransportError>>,
    > {
        let asked = writable_step(answers);
        Step {
            state: DispatchState { writable: asked.answer matches Poll::Ready(Ok(_)), ..self },
            result: asked.answer,
            asked: asked.asked,
            valid: asked.valid,
        }
    }

    /// Taking the next request. At capacity nothing is asked and nothing
    /// taken. Else the transport is asked for room: if it has room the next
    /// request is taken from the queue; if it fails, that is the error; if it
    /// has none yet, nothing is taken.
    pub open spec fn next_request_step(self, answers: Answers<Req, Resp>) -> Step<
        Req,
        Resp,
        S,
        PollIo<DispatchRequest<Req, S>>,
    > {
        if self.at_capacity() {
            Step { state: self, result: Poll::Pending, asked: 0, valid: true }
        } else {
            let ready = self.ready_step(answers);
            match ready.result {
                Poll::Ready(Ok(_)) => Step {
                    state: DispatchState { pending: self.pending_rest(), ..ready.state },
                    result: self.request_answer(),
                    asked: ready.asked,
                    valid: ready.valid,
                },
                Poll::Ready(Err(e)) => Step {
                    state: ready.state,
                    result: Poll::Ready(Some(Err(DispatchError::Write(e)))),
                    asked: ready.asked,
                    valid: ready.valid,
                },
                Poll::Pending => Step {
                    state: ready.state,
                    result: Poll::Pending,
                    asked: ready.asked,
                    valid: ready.valid,
                },
            }
        }
    }

    /// Taking the next cancellation: the transport is asked for room; if it
    /// has room the next cancellation is taken from the queue and the request
    /// it names out of the table.
    pub open spec fn next_cancellation_step(self, answers: Answers<Req, Resp>) -> Step<
        Req,
        Resp,
        S,
        PollIo<(Context, u64)>,
    > {
        let ready = self.ready_step(answers);
        match ready.result {
            Poll::Ready(Ok(_)) => Step {
                state: DispatchState {
                    canceled: self.canceled_rest(),
                    in_flight: match self.next_cancellation() {
                        Some(id) => self.in_flight.remove(id),
                        None => self.in_flight,
                    },
                    ..ready.state
                },
                result: self.cancellation_answer(),
                asked: ready.asked,
                valid: ready.valid,
            },
            Poll::Ready(Err(e)) => Step {
                state: ready.state,
                result: Poll::Ready(Some(Err(DispatchError::Write(e)))),
                asked: ready.asked,
                valid: ready.valid,
            },
            Poll::Pending => Step { state: ready.state, result: Poll::Pending, asked: ready.asked, valid: ready.valid },
        }
    }

    /// Handing `frame` to the transport: the frame counts as sent if the
    /// transport accepts it, and the answer is the transport's.
    pub open spec fn send_step(self, frame: ClientMessage<Req>, answers: Answers<Req, Resp>) -> Step<
        Req,
        Resp,
        S,
        Result<(), TransportError>,
    > {
        let invalid = Step { state: self, result: Ok(()), asked: 0, valid: false };
        if answers.len() < 1 {
            invalid
        } else {
            match answers[0] {
                Exchange::Sent(handed, answer) => Step {
                    state: DispatchState {
                        sent: if answer is Ok {
                            self.sent.push(frame)
                        } else {
                            self.sent
                        },
                        writable: false,
                        ..self
                    },
                    result: answer,
                    asked: 1,
                    valid: handed == frame,
                },
                _ => invalid,
            }
        }
    }

    /// Writing a request. One whose identifier is in flight is refused before
    /// the transport is asked. Else its frame is handed over: accepted, the
    /// request is in flight; refused, the transport's error is the error.
    pub open spec fn write_request_step(self, request: DispatchRequest<Req, S>, answers: Answers<Req, Resp>) -> Step<
        Req,
        Resp,
        S,
        Result<(), DispatchError>,
    > {
        if self.in_flight.contains_key(request.request_id) {
            Step {
                state: self,
                result: Err(DispatchError::DuplicateRequestId(request.request_id)),
                asked: 0,
                valid: true,
            }
        } else {
            let sent = self.send_step(request_frame(request), answers);
            match sent.result {
                Ok(_) => Step {
                    state: DispatchState {
                        in_flight: self.in_flight.insert(request.request_id, request_data(request)),
                        ..sent.state
                    },
                    result: Ok(()),
                    asked: sent.asked,
                    valid: sent.valid,
                },
                Err(e) => Step {
                    state: sent.state,
                    result: Err(DispatchError::Write(e)),
                    asked: sent.asked,
                    valid: sent.valid,
                },
            }
        }
    }

    /// Writing a cancellation: its frame is handed over, and a refusal is the
    /// error.
    pub open spec fn write_cancel_step(self, ctx: Context, request_id: u64, answers: Answers<Req, Resp>) -> Step<
        Req,
        Resp,
        S,
        Result<(), DispatchError>,
    > {
        let sent = self.send_step(cancel_frame(ctx, request_id), answers);
        Step {
            state: sent.state,
            result: match sent.result {
                Ok(_) => Ok(()),
                Err(e) => Err(DispatchError::Write(e)),
            },
            asked: sent.asked,
            valid: sent.valid,
        }
    }

    /// The request in flight that expires first, if any is in flight.
    pub open spec fn first_due(self) -> Option<u64> {
        if exists|id: u64| expires_first(self.in_flight, id) {
            Some(choose|id: u64| expires_first(self.in_flight, id))
        } else {
            None
        }
    }

    /// Settling the request whose deadline has passed at `now`: it leaves the
    /// table. `None` if no deadline has passed.
    pub open spec fn expire_step(self, now: Timestamp) -> Option<Self> {
        match self.first_due() {
            Some(id) => if self.in_flight[id].ctx.deadline.spec_elapsed(now) {
                Some(DispatchState { in_flight: self.in_flight.remove(id), ..self })
            } else {
                None
            },
            None => None,
        }
    }

    /// How a write pump ends that could neither write nor settle anything:
    /// the transport is flushed. A failed flush is the error. Else the pump
    /// is through for good if both queues reported their end and the flush
    /// is done, and pending otherwise.
    pub open spec fn flush_step(self, both_ended: bool, answers: Answers<Req, Resp>) -> Step<Req, Resp, S, PollIo<()>> {
        let invalid = Step { state: self, result: Poll::Pending, asked: 0, valid: false };
        if answers.len() < 1 {
            invalid
        } else {
            match answers[0] {
                Exchange::Flushed(flushed) => Step {
                    state: DispatchState { writable: false, ..self },
                    result: match flushed {
                        Poll::Ready(Err(e)) => Poll::Ready(Some(Err(DispatchError::Write(e)))),
                        Poll::Ready(Ok(_)) => if both_ended {
                            Poll::Ready(None)
                        } else {
                            Poll::Pending
                        },
                        Poll::Pending => Poll::Pending,
                    },
                    asked: 1,
                    valid: true,
                },
                _ => invalid,
            }
        }
    }

    /// The write pump from the cancellation stage on, after the request stage
    /// found nothing to write and reported `requests_ended`.
    #[verifier::opaque]
    pub open spec fn cancel_stage(self, now: Timestamp, requests_ended: bool, answers: Answers<Req, Resp>) -> Step<
        Req,
        Resp,
        S,
        PollIo<()>,
    > {
        let next = self.next_cancellation_step(answers);
        match next.result {
            Poll::Ready(Some(Ok((ctx, request_id)))) => {
                let wrote = next.state.write_cancel_step(ctx, request_id, answers.skip(next.asked as int));
                Step {
                    state: wrote.state,
                    result: match wrote.result {
                        Ok(_) => Poll::Ready(Some(Ok(()))),
                        Err(e) => Poll::Ready(Some(Err(e))),
                    },
                    asked: next.asked + wrote.asked,
                    valid: next.valid && wrote.valid,
                }
            },
            Poll::Ready(Some(Err(e))) => Step {
                state: next.state,
                result: Poll::Ready(Some(Err(e))),
                asked: next.asked,
                valid: next.valid,
            },
            _ => match next.state.expire_step(now) {
                Some(settled) => Step {
                    state: settled,
                    result: Poll::Ready(Some(Ok(()))),
                    asked: next.asked,
                    valid: next.valid,
                },
                None => {
                    let flushed = next.state.flush_step(
                        requests_ended && (next.result matches Poll::Ready(None)),
                        answers.skip(next.asked as int),
                    );
                    Step {
                        state: flushed.state,
                        result: flushed.result,
                        asked: next.asked + flushed.asked,
                        valid: next.valid && flushed.valid,
                    }
                },
            },
        }
    }

    /// The write pump: the next request is written; failing that, the next
    /// cancellation; failing that, the request whose deadline has passed is
    /// settled; failing that, the transport is flushed. The first error of
    /// the transport ends the pump and is its result.
    #[verifier::opaque]
    pub open spec fn write_step(self, now: Timestamp, answers: Answers<Req, Resp>) -> Step<Req, Resp, S, PollIo<()>> {
        let next = self.next_request_step(answers);
        match next.result {
            Poll::Ready(Some(Ok(request))) => {
                let wrote = next.state.write_request_step(request, answers.skip(next.asked as int));
                Step {
                    state: wrote.state,
                    result: match wrote.result {
                        Ok(_) => Poll::Ready(Some(Ok(()))),
                        Err(e) => Poll::Ready(Some(Err(e))),
                    },
                    asked: next.asked + wrote.asked,
                    valid: next.valid && wrote.valid,
                }
            },
            Poll::Ready(Some(Err(e))) => Step {
                state: next.state,
                result: Poll::Ready(Some(Err(e))),
                asked: next.asked,
                valid: next.valid,
            },
            _ => {
                let rest = next.state.cancel_stage(
                    now,
                    next.result matches Poll::Ready(None),
                    answers.skip(next.asked as int),
                );
                Step { state: rest.state, result: rest.result, asked: next.asked + rest.asked, valid: next.valid && rest.valid }
            },
        }
    }

    /// One turn: the read pump, and unless it failed, the write pump. An
    /// error of either is the outcome of the turn.
    #[verifier::opaque]
    pub open spec fn turn_step(self, now: Timestamp, answers: Answers<Req, Resp>) -> Step<Req, Resp, S, PollIo<()>> {
        let read = self.read_step(answers);
        if Self::failed(read.result) {
            read
        } else {
            let wrote = read.state.write_step(now, answers.skip(read.asked as int));
            Step {
                state: wrote.state,
                result: Self::turn_outcome(read.result, wrote.result, wrote.state.in_flight.len() == 0),
                asked: read.asked + wrote.asked,
                valid: read.valid && wrote.valid,
            }
        }
    }

    /// A run of at most `budget` turns over the exchanges `answers`: turn
    /// after turn, each over its own share of the exchanges, while each makes
    /// progress. The run ends with the first turn that makes none, and has
    /// its outcome; a run whose budget is used up reports progress.
    pub open spec fn run_steps(
        self,
        after: Self,
        now: Timestamp,
        budget: nat,
        outcome: PollIo<()>,
        answers: Answers<Req, Resp>,
    ) -> bool
        decreases budget,
    {
        if budget == 0 {
            after == self && Self::progressed(outcome) && answers.len() == 0
        } else {
            exists|share: nat, mid: Self, turn: PollIo<()>|
                {
                    &&& share <= answers.len()
                    &&& #[trigger] self.turn_step(now, answers.take(share as int)).describes(
                        mid,
                        turn,
                        answers.take(share as int),
                    )
                    &&& if Self::progressed(turn) {
                        mid.run_steps(after, now, (budget - 1) as nat, outcome, answers.skip(share as int))
                    } else {
                        after == mid && outcome == turn && share == answers.len()
                    }
                }
        }
    }

    /// A run that starts with a turn over `first` and goes on over `rest`.
    pub proof fn lemma_run_steps_turn(
        self,
        now: Timestamp,
        budget: nat,
        first: Answers<Req, Resp>,
        rest: Answers<Req, Resp>,
        mid: Self,
        turn: PollIo<()>,
        after: Self,
        outcome: PollIo<()>,
    )
        requires
            budget > 0,
            self.turn_step(now, first).describes(mid, turn, first),
            if Self::progressed(turn) {
                mid.run_steps(after, now, (budget - 1) as nat, outcome, rest)
            } else {
                after == mid && outcome == turn && rest.len() == 0
            },
        ensures
            self.run_steps(after, now, budget, outcome, first + rest),
    {
        let all = first + rest;
        let share = first.len();
        assert(all.take(share as int) =~= first);
        assert(all.skip(share as int) =~= rest);
        assert(self.turn_step(now, all.take(share as int)).describes(mid, turn, all.take(share as int)));
    }

    /// The result of a pump that wrote a frame: progress, or the error met.
    pub open spec fn written(result: Result<(), DispatchError>) -> PollIo<()> {
        match result {
            Ok(_) => Poll::Ready(Some(Ok(()))),
            Err(e) => Poll::Ready(Some(Err(e))),
        }
    }

    /// A write pump that takes a request and writes it is the request stage
    /// followed by the writing.
    pub proof fn lemma_write_step_request(
        self,
        now: Timestamp,
        first: Answers<Req, Resp>,
        second: Answers<Req, Resp>,
        taken: Self,
        request: DispatchRequest<Req, S>,
        after: Self,
        result: Result<(), DispatchError>,
    )
        requires
            self.next_request_step(first).describes(taken, Poll::Ready(Some(Ok(request))), first),
            taken.write_request_step(request, second).describes(after, result, second),
        ensures
            self.write_step(now, first + second).describes(after, Self::written(result), first + second),
    {
        reveal(DispatchState::write_step);
        let all = first + second;
        assert(all.subrange(0, first.len() as int) =~= first);
        assert(all.skip(first.len() as int) =~= second);
        self.lemma_next_request_step_prefix(first, all);
    }

    /// A write pump whose request stage meets an error of the transport ends
    /// with that error.
    pub proof fn lemma_write_step_failed(self, now: Timestamp, first: Answers<Req, Resp>, after: Self, e: DispatchError)
        requires
            self.next_request_step(first).describes(after, Poll::Ready(Some(Err(e))), first),
        ensures
            self.write_step(now, first).describes(after, Poll::Ready(Some(Err(e))), first),
    {
        reveal(DispatchState::write_step);
    }

    /// A write pump whose request stage finds nothing to write goes on with
    /// the cancellation stage.
    pub proof fn lemma_write_step_rest(
        self,
        now: Timestamp,
        first: Answers<Req, Resp>,
        rest: Answers<Req, Resp>,
        mid: Self,
        next: PollIo<DispatchRequest<Req, S>>,
        after: Self,
        result: PollIo<()>,
    )
        requires
            self.next_request_step(first).describes(mid, next, first),
            next is Pending || next matches Poll::Ready(None),
            mid.cancel_stage(now, next matches Poll::Ready(None), rest).describes(after, result, rest),
        ensures
            self.write_step(now, first + rest).describes(after, result, first + rest),
    {
        reveal(DispatchState::write_step);
        let all = first + rest;
        assert(all.subrange(0, first.len() as int) =~= first);
        assert(all.skip(first.len() as int) =~= rest);
        self.lemma_next_request_step_prefix(first, all);
    }

    /// A cancellation stage that takes a cancellation and writes it.
    pub proof fn lemma_cancel_stage_cancel(
        self,
        now: Timestamp,
        requests_ended: bool,
        first: Answers<Req, Resp>,
        second: Answers<Req, Resp>,
        taken: Self,
        ctx: Context,
        request_id: u64,
        after: Self,
        result: Result<(), DispatchError>,
    )
        requires
            self.next_cancellation_step(first).describes(taken, Poll::Ready(Some(Ok((ctx, request_id)))), first),
            taken.write_cancel_step(ctx, request_id, second).describes(after, result, second),
        ensures
            self.cancel_stage(now, requests_ended, first + second).describes(
                after,
                Self::written(result),
                first + second,
            ),
    {
        reveal(DispatchState::cancel_stage);
        let all = first + second;
        assert(all.subrange(0, first.len() as int) =~= first);
        assert(all.skip(first.len() as int) =~= second);
        self.lemma_next_cancellation_step_prefix(first, all);
    }

    /// A cancellation stage that meets an error of the transport ends with
    /// that error.
    pub proof fn lemma_cancel_stage_failed(
        self,
        now: Timestamp,
        requests_ended: bool,
        first: Answers<Req, Resp>,
        after: Self,
        e: DispatchError,
    )
        requires
            self.next_cancellation_step(first).describes(after, Poll::Ready(Some(Err(e))), first),
        ensures
            self.cancel_stage(now, requests_ended, first).describes(after, Poll::Ready(Some(Err(e))), first),
    {
        reveal(DispatchState::cancel_stage);
    }

    /// A cancellation stage that finds nothing to write settles the request
    /// whose deadline has passed.
    pub proof fn lemma_cancel_stage_expired(
        self,
        now: Timestamp,
        requests_ended: bool,
        first: Answers<Req, Resp>,
        late: Self,
        next: PollIo<(Context, u64)>,
        after: Self,
    )
        requires
            self.next_cancellation_step(first).describes(late, next, first),
            next is Pending || next matches Poll::Ready(None),
            late.expire_step(now) == Some(after),
        ensures
            self.cancel_stage(now, requests_ended, first).describes(after, Poll::Ready(Some(Ok(()))), first),
    {
        reveal(DispatchState::cancel_stage);
    }

    /// A cancellation stage that can neither write nor settle anything ends
    /// with the flush.
    pub proof fn lemma_cancel_stage_flushed(
        self,
        now: Timestamp,
        requests_ended: bool,
        first: Answers<Req, Resp>,
        second: Answers<Req, Resp>,
        late: Self,
        next: PollIo<(Context, u64)>,
        after: Self,
        result: PollIo<()>,
    )
        requires
            self.next_cancellation_step(first).describes(late, next, first),
            next is Pending || next matches Poll::Ready(None),
            late.expire_step(now) is None,
            late.flush_step(requests_ended && (next matches Poll::Ready(None)), second).describes(after, result, second),
        ensures
            self.cancel_stage(now, requests_ended, first + second).describes(after, result, first + second),
    {
        reveal(DispatchState::cancel_stage);
        let all = first + second;
        assert(all.subrange(0, first.len() as int) =~= first);
        assert(all.skip(first.len() as int) =~= second);
        self.lemma_next_cancellation_step_prefix(first, all);
    }

    /// A turn is the read pump followed, unless it failed, by the write pump.
    pub proof fn lemma_turn_step(
        self,
        now: Timestamp,
        first: Answers<Req, Resp>,
        second: Answers<Req, Resp>,
        mid: Self,
        read: PollIo<()>,
        after: Self,
        wrote: PollIo<()>,
    )
        requires
            self.read_step(first).describes(mid, read, first),
            !Self::failed(read),
            mid.write_step(now, second).describes(after, wrote, second),
        ensures
            self.turn_step(now, first + second).describes(
                after,
                Self::turn_outcome(read, wrote, after.in_flight.len() == 0),
                first + second,
            ),
    {
        reveal(DispatchState::turn_step);
        let all = first + second;
        assert(all.subrange(0, first.len() as int) =~= first);
        assert(all.skip(first.len() as int) =~= second);
        self.lemma_read_step_prefix(first, all);
    }

    /// A turn whose read pump fails ends with that failure.
    pub proof fn lemma_turn_step_failed(self, now: Timestamp, first: Answers<Req, Resp>, after: Self, read: PollIo<()>)
        requires
            self.read_step(first).describes(after, read, first),
            Self::failed(read),
        ensures
            self.turn_step(now, first).describes(after, read, first),
    {
        reveal(DispatchState::turn_step);
    }

    /// The request that expires first is the one `first_due` names.
    pub proof fn lemma_first_due(self, id: u64)
        requires
            expires_first(self.in_flight, id),
        ensures
            self.first_due() == Some(id),
    {
        let chosen = choose|id: u64| expires_first(self.in_flight, id);
        lemma_expires_first_unique(self.in_flight, id, chosen);
    }

    /// What the read pump comes to depends on the exchange it made alone.
    pub proof fn lemma_read_step_prefix(self, answers: Answers<Req, Resp>, longer: Answers<Req, Resp>)
        requires
            self.read_step(answers).valid,
            self.read_step(answers).asked == answers.len(),
            extends(longer, answers),
        ensures
            self.read_step(longer) == self.read_step(answers),
    {
        if answers.len() > 0 {
            assert(longer.subrange(0, answers.len() as int)[0] == answers[0]);
        }
    }

    /// What taking the next request comes to depends on the exchanges it
    /// made alone.
    pub proof fn lemma_next_request_step_prefix(self, answers: Answers<Req, Resp>, longer: Answers<Req, Resp>)
        requires
            self.next_request_step(answers).valid,
            self.next_request_step(answers).asked == answers.len(),
            extends(longer, answers),
        ensures
            self.next_request_step(longer) == self.next_request_step(answers),
    {
        if !self.at_capacity() {
            lemma_writable_step_prefix(answers, longer);
        }
    }

    /// What taking the next cancellation comes to depends on the exchanges
    /// it made alone.
    pub proof fn lemma_next_cancellation_step_prefix(self, answers: Answers<Req, Resp>, longer: Answers<Req, Resp>)
        requires
            self.next_cancellation_step(answers).valid,
            self.next_cancellation_step(answers).asked == answers.len(),
            extends(longer, answers),
        ensures
            self.next_cancellation_step(longer) == self.next_cancellation_step(answers),
    {
        lemma_writable_step_prefix(answers, longer);
    }
}

} // verus!
