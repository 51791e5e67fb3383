//! The one-shot channels and the cancellation channel of `tokio`, and the
//! records of what was done with them. Whatever is asked of a slot or sent
//! through a channel goes through a type of this module, which notes it: the
//! records cannot be written to from anywhere else.

use vstd::prelude::*;
use tokio::sync::mpsc::UnboundedSender;
use tokio::sync::oneshot::{Receiver, Sender};
use crate::client::in_flight_requests::Completion;
use crate::message::Response;

verus! {

/// The sending half of a one-shot channel. Nothing of its state is known
/// here: the receiving half changes it from another task.
#[verifier::external_type_specification]
#[verifier::external_body]
#[verifier::reject_recursive_types(T)]
pub struct ExSender<T>(Sender<T>);

/// The receiving half of a one-shot channel.
#[verifier::external_type_specification]
#[verifier::external_body]
#[verifier::reject_recursive_types(T)]
pub struct ExReceiver<T>(Receiver<T>);

/// What awaiting the receiving half of a one-shot channel yields when the
/// sending half was dropped without a value.
#[verifier::external_type_specification]
#[verifier::external_body]
pub struct ExRecvError(tokio::sync::oneshot::error::RecvError);

/// The sending half of an unbounded channel between tasks.
#[verifier::external_type_specification]
#[verifier::external_body]
#[verifier::reject_recursive_types(T)]
pub struct ExUnboundedSender<T>(UnboundedSender<T>);

/// `UnboundedSender::clone` makes one more handle on the same channel.
/// Nothing is claimed of it.
pub assume_specification<T>[ <UnboundedSender<T> as Clone>::clone ](sender: &UnboundedSender<T>) -> (shared:
    UnboundedSender<T>)
;

/// What the caller's side of a call did to end it.
pub enum CallerStep {
    /// The response slot was closed.
    Closed,
    /// The cancellation of this request was sent.
    Cancelled(u64),
}

/// Sends the cancellations of the calls that were given up to the task that
/// drives the dispatcher, and keeps the record of what it did.
#[derive(Clone)]
pub struct RequestCancellation {
    sender: UnboundedSender<u64>,
    steps: Ghost<Seq<CallerStep>>,
}

/// Makes a slot for one value with `oneshot::channel`: what goes into the
/// sending half comes out of the receiving half. The two halves are new.
#[verifier::external_body]
pub(crate) fn slot<T>() -> (halves: (Sender<T>, Receiver<T>)) {
    tokio::sync::oneshot::channel()
}

/// Closes the receiving half with `Receiver::close`: from then on the sending
/// half reports the slot as closed, and a value sent later is refused.
#[verifier::external_body]
fn close<T>(slot: &mut Receiver<T>) {
    slot.close()
}

/// Hands `request_id` to `UnboundedSender::send`, which never waits and fails
/// only if the receiving half is gone. The result says whether it went
/// through; nothing is claimed of it. (The call ends the process should the
/// channel ever hold as many messages as a `usize` can count.)
#[verifier::external_body]
fn send_id(sender: &UnboundedSender<u64>, request_id: u64) -> (sent: bool) {
    sender.send(request_id).is_ok()
}

/// Asks `Sender::is_closed` whether the receiving half was closed or dropped.
/// The answer holds for the moment of the call only, so nothing is claimed of
/// it.
#[verifier::external_body]
pub(crate) fn is_closed<T>(slot: &Sender<T>) -> (closed: bool) {
    slot.is_closed()
}

/// Puts `value` into the slot with `Sender::send`, which never waits. If the
/// receiving half is gone the value comes back.
#[verifier::external_body]
fn send<T>(slot: Sender<T>, value: T) -> (result: Result<(), T>)
    ensures
        result matches Err(back) ==> back == value,
{
    slot.send(value)
}

impl RequestCancellation {
    /// The sending half through which the cancellations go.
    pub closed spec fn sender(&self) -> UnboundedSender<u64> {
        self.sender
    }

    /// What was done through this handle, oldest first.
    pub closed spec fn steps(&self) -> Seq<CallerStep> {
        self.steps@
    }

    /// Cancellations go to the receiving half that belongs to `sender`.
    pub fn new(sender: UnboundedSender<u64>) -> (cancellation: Self)
        ensures
            cancellation.sender() == sender,
            cancellation.steps() == Seq::<CallerStep>::empty(),
    {
        RequestCancellation { sender, steps: Ghost(Seq::empty()) }
    }

    /// Closes the response slot `response` of a call, so that the dispatcher
    /// finds it closed from now on.
    pub fn close_slot<T>(&mut self, response: &mut Receiver<T>)
        ensures
            final(self).sender() == old(self).sender(),
            final(self).steps() == old(self).steps().push(CallerStep::Closed),
    {
        close(response);
        proof {
            self.steps@ = self.steps@.push(CallerStep::Closed);
        }
    }

    /// Cancels the request `request_id`: hands it to the channel, and goes on
    /// sending through the same channel afterwards. Whether the identifier
    /// arrives is up to the task at the other end: if the dispatcher is gone,
    /// nobody is left to tell and nothing happens.
    pub fn cancel(&mut self, request_id: u64)
        ensures
            final(self).sender() == old(self).sender(),
            final(self).steps() == old(self).steps().push(CallerStep::Cancelled(request_id)),
    {
        let _ = send_id(&self.sender, request_id);
        proof {
            self.steps@ = self.steps@.push(CallerStep::Cancelled(request_id));
        }
    }
}

/// How many of `taken` are true.
pub open spec fn count_true(taken: Seq<bool>) -> nat
    decreases taken.len(),
{
    if taken.len() == 0 {
        0
    } else {
        count_true(taken.drop_last()) + if taken.last() {
            1nat
        } else {
            0nat
        }
    }
}

/// One more answer adds one if it is true.
pub proof fn lemma_count_true_push(taken: Seq<bool>, next: bool)
    ensures
        count_true(taken.push(next)) == count_true(taken) + if next {
            1nat
        } else {
            0nat
        },
        count_true(taken.push(next)) <= taken.len() + 1,
        count_true(taken) <= taken.len(),
    decreases taken.len(),
{
    assert(taken.push(next).drop_last() =~= taken);
    if taken.len() > 0 {
        lemma_count_true_push(taken.drop_last(), taken.last());
        assert(taken.drop_last().push(taken.last()) =~= taken);
    }
}

/// The record of the responses that were put into their slots.
#[verifier::reject_recursive_types(Resp)]
pub struct Deliveries<Resp> {
    handed: Ghost<Seq<Completion<Sender<Response<Resp>>, Resp>>>,
    taken: Ghost<Seq<bool>>,
}

impl<Resp> Deliveries<Resp> {
    /// The deliveries that were handed to their slots, oldest first.
    pub closed spec fn handed(&self) -> Seq<Completion<Sender<Response<Resp>>, Resp>> {
        self.handed@
    }

    /// Whether the slot took the response, for each delivery handed over.
    pub closed spec fn taken(&self) -> Seq<bool> {
        self.taken@
    }

    /// A record of nothing.
    pub fn new() -> (record: Self)
        ensures
            record.handed() == Seq::<Completion<Sender<Response<Resp>>, Resp>>::empty(),
            record.taken() == Seq::<bool>::empty(),
    {
        Deliveries { handed: Ghost(Seq::empty()), taken: Ghost(Seq::empty()) }
    }

    /// Puts the response of `completion` into its slot and notes it. The
    /// result says whether the slot took it: a caller that has stopped
    /// waiting does not.
    pub fn hand(&mut self, completion: Completion<Sender<Response<Resp>>, Resp>) -> (taken: bool)
        ensures
            final(self).handed() == old(self).handed().push(completion),
            final(self).taken() == old(self).taken().push(taken),
    {
        let ghost delivery = completion;
        let Completion { response_completion, response } = completion;
        let taken = send(response_completion, response).is_ok();
        proof {
            self.handed@ = self.handed@.push(delivery);
            self.taken@ = self.taken@.push(taken);
        }
        taken
    }
}

} // verus!
