//! A client whose response slots are one-shot channels of `tokio`: the
//! sending half travels with the request, the receiving half stays with the
//! caller.

use vstd::prelude::*;
use tokio::sync::oneshot::{Receiver, Sender};
use crate::client::channel::{Channel, DispatchRequest, DispatchResponse, RequestDispatch};
use crate::client::pending_requests::PushError;
use crate::client::response_slot::{
    count_true, is_closed, lemma_count_true_push, slot, CallerStep, Deliveries, RequestCancellation,
};
use crate::client::state::DispatchState;
use crate::context::Context;
use crate::message::{ClientMessage, Response};
use crate::transport::Transport;

verus! {

impl<Req, Resp> Channel<Req, Resp> {
    /// Stages a call with a new one-shot slot for its response: the sending
    /// half travels with the request, the receiving half is for the caller.
    pub fn send_oneshot(&self, ctx: Context, request: Req) -> (staged: (
        DispatchRequest<Req, Sender<Response<Resp>>>,
        DispatchResponse,
        Receiver<Response<Resp>>,
    ))
        ensures
            (staged.0, staged.1) == Self::spec_send(
                ctx,
                request,
                staged.0.response_completion,
                staged.0.request_id,
                staged.0.ctx.trace_context.span_id,
            ),
    {
        let (response_completion, response) = slot();
        let (request, handle) = self.send(ctx, request, response_completion);
        (request, handle, response)
    }
}

impl DispatchResponse {
    /// What giving up a call does on the caller's side: nothing if the
    /// handle has resolved; else the slot is closed first and the
    /// cancellation sent after that.
    pub open spec fn spec_give_up(self, steps: Seq<CallerStep>) -> Seq<CallerStep> {
        if self.complete {
            steps
        } else {
            steps.push(CallerStep::Closed).push(CallerStep::Cancelled(self.request_id))
        }
    }

    /// Gives the call up, as a caller does who drops the handle. If the
    /// handle has not resolved, the slot is closed first and the cancellation
    /// sent after that: should the cancellation overtake the request on its
    /// way to the dispatcher, the dispatcher finds the slot closed and never
    /// writes the request. The result is the identifier that was cancelled,
    /// if one was.
    pub fn give_up<T>(&mut self, response: &mut Receiver<T>, cancellation: &mut RequestCancellation) -> (cancelled:
        Option<u64>)
        ensures
            final(self).request_id == old(self).request_id,
            final(self).ctx == old(self).ctx,
            final(self).complete,
            cancelled == if old(self).complete {
                None
            } else {
                Some(old(self).request_id)
            },
            final(cancellation).sender() == old(cancellation).sender(),
            final(cancellation).steps() == old(self).spec_give_up(old(cancellation).steps()),
    {
        match self.cancel() {
            Some(request_id) => {
                cancellation.close_slot(response);
                cancellation.cancel(request_id);
                Some(request_id)
            },
            None => None,
        }
    }
}

impl<Req, Resp, C: Transport<ClientMessage<Req>, Response<Resp>>> RequestDispatch<Req, Resp, Sender<Response<Resp>>, C> {
    /// Stages `request` as it comes from a channel: its slot is asked whether
    /// the caller has closed it, and the request is staged accordingly. What
    /// follows from the answer is `stage_as`. Refused, with the request
    /// handed back, if every channel is gone or the queue is full.
    pub fn stage_observed(&mut self, request: DispatchRequest<Req, Sender<Response<Resp>>>) -> (result: Result<
        (),
        PushError<DispatchRequest<Req, Sender<Response<Resp>>>>,
    >)
        ensures
            match result {
                Ok(()) => {
                    &&& !old(self)@.pending_closed
                    &&& old(self)@.pending.len() < old(self)@.pending_bound
                    &&& (final(self)@ == old(self)@.stage_as(request, false) || final(self)@ == old(self)@.stage_as(
                        request,
                        true,
                    ))
                },
                Err(PushError::Closed(back)) => old(self)@.pending_closed && back == request && final(self)@ == old(self)@,
                Err(PushError::Full(back)) => !old(self)@.pending_closed && old(self)@.pending.len() >= old(self)@.pending_bound
                    && back == request && final(self)@ == old(self)@,
            },
            final(self).exchanges() == old(self).exchanges(),
            old(self)@.within_limit() ==> final(self)@.within_limit(),
    {
        let closed = is_closed(&request.response_completion);
        self.stage_as(request, closed)
    }

    /// Asks the slot of every staged request whether its caller has closed
    /// it, and records the answers: a request whose caller has given up in
    /// the meantime will never be written. What follows from the answers is
    /// `observe`. A slot that was found closed before stays closed.
    pub fn observe_slots(&mut self)
        ensures
            final(self)@ == (DispatchState { pending: final(self)@.pending, ..old(self)@ }),
            final(self)@.pending.len() == old(self)@.pending.len(),
            forall|i: int|
                0 <= i < old(self)@.pending.len() ==> {
                    &&& (#[trigger] final(self)@.pending[i]).request == old(self)@.pending[i].request
                    &&& old(self)@.pending[i].response_closed ==> final(self)@.pending[i].response_closed
                },
            final(self).exchanges() == old(self).exchanges(),
            old(self)@.within_limit() ==> final(self)@.within_limit(),
    {
        let staged = self.staged_requests();
        let mut closed: Vec<bool> = Vec::new();
        let mut index: usize = 0;
        while index < staged
            invariant
                index <= staged,
                staged == self@.pending.len(),
                closed@.len() == index,
            decreases staged - index,
        {
            let found = match self.staged_slot(index) {
                Some(slot) => is_closed(slot),
                None => false,
            };
            closed.push(found);
            index += 1;
        }
        self.observe(&closed);
    }

    /// Puts every response that was routed into the slot of its caller,
    /// oldest first, notes each in `record`, and returns how many of them
    /// found their caller still waiting. A caller that has given up in the
    /// meantime is no error.
    pub fn deliver(&mut self, record: &mut Deliveries<Resp>) -> (delivered: usize)
        ensures
            final(self)@ == (DispatchState { completed: Seq::empty(), ..old(self)@ }),
            final(record).handed() == old(record).handed() + old(self)@.completed,
            final(record).taken().len() == old(record).taken().len() + old(self)@.completed.len(),
            final(record).taken().subrange(0, old(record).taken().len() as int) == old(record).taken(),
            delivered == count_true(final(record).taken().skip(old(record).taken().len() as int)),
            final(self).exchanges() == old(self).exchanges(),
            old(self)@.within_limit() ==> final(self)@.within_limit(),
    {
        let mut completed = self.take_completed();
        let ghost all = completed@;
        let ghost before = record.taken();
        let mut delivered: usize = 0;
        let mut done: usize = 0;
        let total = completed.len();
        proof {
            assert(record.taken().skip(before.len() as int) =~= Seq::empty());
            assert(record.taken().subrange(0, before.len() as int) =~= before);
            assert(record.handed() + all.subrange(0, 0) =~= record.handed());
        }
        while completed.len() > 0
            invariant
                done + completed@.len() == total,
                total == all.len(),
                completed@ == all.skip(done as int),
                before == old(record).taken(),
                record.handed() == old(record).handed() + all.subrange(0, done as int),
                record.taken().len() == before.len() + done,
                record.taken().subrange(0, before.len() as int) == before,
                delivered == count_true(record.taken().skip(before.len() as int)),
                delivered <= done,
            decreases completed@.len(),
        {
            let ghost earlier = record.taken();
            let completion = completed.remove(0);
            let taken = record.hand(completion);
            proof {
                lemma_count_true_push(earlier.skip(before.len() as int), taken);
                assert(record.taken().skip(before.len() as int) =~= earlier.skip(before.len() as int).push(taken));
                assert(record.taken().subrange(0, before.len() as int) =~= before);
                assert(all.subrange(0, done + 1) =~= all.subrange(0, done as int).push(all[done as int]));
                assert(completed@ =~= all.skip(done + 1));
                assert(record.handed() =~= old(record).handed() + all.subrange(0, done + 1));
            }
            if taken {
                delivered += 1;
            }
            done += 1;
        }
        proof {
            assert(all.subrange(0, done as int) =~= all);
        }
        delivered
    }
}

} // verus!
