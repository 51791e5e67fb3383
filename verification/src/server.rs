//! The server side of a connection: it reads requests and cancellations,
//! keeps track of the handlers that run, and writes their responses.

use vstd::prelude::*;
use crate::context::Timestamp;
use crate::deadline::{expires_first, first_to_expire, is_next_deadline, Expiring};
use crate::error::{ErrorKind, ServerError, TransportError};
use crate::id_map::IdMap;
use crate::message::{ClientMessage, Request, Response};
use crate::poll::Poll;
use crate::transport::{
    extends, lemma_since_chain, lemma_writable_step_prefix, since, writable_step, Asked, Exchange, Fuse, Transport,
};

pub mod abort;
pub mod fire;

verus! {

/// Limits that keep one connection from using resources without bound.
#[derive(Debug, Clone, Copy, PartialEq, Eq)]
pub struct Config {
    /// How many handlers may run at once for one connection. Requests beyond
    /// that are rejected.
    pub max_in_flight_requests_per_connection: usize,
    /// How many responses may wait to be written.
    pub pending_response_buffer: usize,
}

impl Default for Config {
    fn default() -> (config: Config)
        ensures
            config.max_in_flight_requests_per_connection == 1000,
            config.pending_response_buffer == 100,
    {
        Config { max_in_flight_requests_per_connection: 1000, pending_response_buffer: 100 }
    }
}

/// What the channel keeps for one handler that runs.
pub struct HandlerData<A> {
    /// Stops the handler when it is fired.
    pub abort_handle: A,
    /// When the handler has to be through.
    pub deadline: Timestamp,
}

impl<A> Expiring for HandlerData<A> {
    open spec fn expires_at(&self) -> Timestamp {
        self.deadline
    }

    fn deadline(&self) -> (deadline: Timestamp) {
        self.deadline
    }
}

/// What reading one frame came to.
#[derive(Debug, PartialEq, Eq)]
pub enum Incoming<Req> {
    /// A request for which there is room. Its handler has to be registered
    /// with [`BaseChannel::start_request`] and started.
    Request(Request<Req>),
    /// A request that was turned away because as many handlers run as there
    /// may. The rejection was written.
    Rejected(u64),
    /// The cancellation of a request. If its handler ran, it was aborted.
    Cancelled(u64),
}

/// The outcome of one step of the channel.
pub type PollIo<T> = Poll<Option<Result<T, TransportError>>>;

/// What became of a response that a handler produced.
#[derive(Debug, PartialEq, Eq)]
pub enum Responded<Resp> {
    /// The transport accepted the response.
    Sent,
    /// Nobody waits for the response: the request was cancelled, or has
    /// expired, or was never registered.
    Dropped,
    /// The transport cannot take a frame right now. The response is handed
    /// back and the handler stays registered.
    NotReady(Response<Resp>),
}

/// How the handler of a request ended.
#[derive(Debug, PartialEq, Eq)]
pub enum HandlerOutcome<Resp> {
    /// The handler returned this payload before its deadline.
    Completed(Resp),
    /// The handler returned an error before its deadline.
    Failed(String),
    /// The deadline passed before the handler was through.
    TimedOut,
}

/// The response that reports `outcome` to the caller of `request_id`.
pub open spec fn spec_response_for<Resp>(
    request_id: u64,
    outcome: HandlerOutcome<Resp>,
    response: Response<Resp>,
) -> bool {
    &&& response.request_id == request_id
    &&& match outcome {
        HandlerOutcome::Completed(payload) => response.message == Ok::<Resp, ServerError>(payload),
        HandlerOutcome::Failed(detail) => response.message == Err::<Resp, ServerError>(
            ServerError { kind: ErrorKind::Application, detail: Some(detail) },
        ),
        HandlerOutcome::TimedOut => {
            &&& response.message matches Err(error)
            &&& error.kind == ErrorKind::DeadlineExceeded
            &&& error.detail matches Some(detail)
            &&& detail@ == "Response did not complete before deadline."@
        },
    }
}

/// Builds the response that reports how the handler of `request_id` ended.
pub fn response_for<Resp>(request_id: u64, outcome: HandlerOutcome<Resp>) -> (response: Response<Resp>)
    ensures
        spec_response_for(request_id, outcome, response),
{
    let message = match outcome {
        HandlerOutcome::Completed(payload) => Ok(payload),
        HandlerOutcome::Failed(detail) => Err(ServerError { kind: ErrorKind::Application, detail: Some(detail) }),
        HandlerOutcome::TimedOut => Err(
            ServerError {
                kind: ErrorKind::DeadlineExceeded,
                detail: Some("Response did not complete before deadline.".to_owned()),
            },
        ),
    };
    Response { request_id, message }
}

/// Everything a server channel holds, as plain mathematical values.
#[verifier::ext_equal]
pub struct ChannelState<Req, Resp, A> {
    /// The limits the channel was made with.
    pub config: Config,
    /// The handlers that run, by the identifier of their request.
    pub in_flight: Map<u64, HandlerData<A>>,
    /// The abort handles that have to be fired, oldest first.
    pub aborted: Seq<A>,
    /// The frames the transport has accepted, oldest first.
    pub sent: Seq<Response<Resp>>,
    /// The frames the transport has yielded, oldest first.
    pub received: Seq<ClientMessage<Req>>,
    /// Whether the transport has promised to accept one more frame.
    pub writable: bool,
    /// Whether the inbound stream has ended.
    pub done: bool,
}

/// Whether `response` tells the caller of `request_id` that the server had no
/// room for the request.
pub open spec fn is_overloaded<Resp>(response: Response<Resp>, request_id: u64) -> bool {
    &&& response.request_id == request_id
    &&& response.message matches Err(error)
    &&& error.kind == ErrorKind::Overloaded
    &&& error.detail matches Some(detail)
    &&& detail@ == "Server throttled the request."@
}

/// Whether `handle` stops one of the handlers of `handlers`.
pub open spec fn stops_one_of<A>(handlers: Map<u64, HandlerData<A>>, handle: A) -> bool {
    exists|id: u64| handlers.contains_key(id) && handlers[id].abort_handle == handle
}

/// Whether `handle` is among the handles of `aborted` from position `from` on.
pub open spec fn fired_since<A>(aborted: Seq<A>, from: int, handle: A) -> bool {
    exists|i: int| from <= i < aborted.len() && aborted[i] == handle
}

/// Whether `after` holds, behind the handles of `before`, the abort handle of
/// every handler of `handlers` and nothing else.
pub open spec fn aborted_all<A>(before: Seq<A>, handlers: Map<u64, HandlerData<A>>, after: Seq<A>) -> bool {
    &&& after.len() == before.len() + handlers.len()
    &&& after.subrange(0, before.len() as int) == before
    &&& forall|id: u64| #[trigger]
        handlers.contains_key(id) ==> fired_since(after, before.len() as int, handlers[id].abort_handle)
    &&& forall|i: int| before.len() <= i < after.len() ==> stops_one_of(handlers, #[trigger] after[i])
}

impl<Req, Resp, A> ChannelState<Req, Resp, A> {
    /// The state of a channel that was just made with `config`.
    pub open spec fn initial(config: Config) -> Self {
        ChannelState {
            config,
            in_flight: Map::empty(),
            aborted: Seq::empty(),
            sent: Seq::empty(),
            received: Seq::empty(),
            writable: false,
            done: false,
        }
    }

    /// No more handlers run than the configured limit allows.
    pub open spec fn within_limit(self) -> bool {
        self.in_flight.dom().finite() && self.in_flight.len() <= self.config.max_in_flight_requests_per_connection
    }

    /// As many handlers run as there may.
    pub open spec fn at_capacity(self) -> bool {
        self.in_flight.len() >= self.config.max_in_flight_requests_per_connection
    }

    /// The state after the handler of `request_id`, if it runs, was aborted.
    pub open spec fn abort(self, request_id: u64) -> Self {
        if self.in_flight.contains_key(request_id) {
            ChannelState {
                in_flight: self.in_flight.remove(request_id),
                aborted: self.aborted.push(self.in_flight[request_id].abort_handle),
                ..self
            }
        } else {
            self
        }
    }

    /// Whether `after` is `self` with every handler aborted.
    pub open spec fn aborted_everything(self, after: Self) -> bool {
        &&& after == ChannelState { in_flight: Map::empty(), aborted: after.aborted, ..self }
        &&& aborted_all(self.aborted, self.in_flight, after.aborted)
    }

    /// What a handle does that has expired at `now`: the handler that expires
    /// first is aborted, if its deadline has passed.
    pub open spec fn expired(self, after: Self, now: Timestamp, expired: Poll<Option<u64>>) -> bool {
        match expired {
            Poll::Ready(Some(id)) => {
                &&& expires_first(self.in_flight, id)
                &&& self.in_flight[id].deadline.spec_elapsed(now)
                &&& after == self.abort(id)
            },
            Poll::Ready(None) => self.in_flight == Map::<u64, HandlerData<A>>::empty() && after == self,
            Poll::Pending => {
                &&& exists|id: u64| expires_first(self.in_flight, id) && !self.in_flight[id].deadline.spec_elapsed(now)
                &&& after == self
            },
        }
    }

    /// What writing the response of a handler does. The response of a handler
    /// that is no longer registered is dropped without a word to the
    /// transport. Else the transport is asked whether it can take a frame; if
    /// it can, the handler leaves the table and the response is written.
    pub open spec fn responded(
        self,
        after: Self,
        response: Response<Resp>,
        result: Result<Responded<Resp>, TransportError>,
    ) -> bool {
        if !self.in_flight.contains_key(response.request_id) {
            after == self && result == Ok::<Responded<Resp>, TransportError>(Responded::Dropped)
        } else {
            match result {
                Ok(Responded::Sent) => after == ChannelState {
                    in_flight: self.in_flight.remove(response.request_id),
                    sent: self.sent.push(response),
                    writable: false,
                    ..self
                },
                Ok(Responded::NotReady(back)) => back == response && after == ChannelState {
                    writable: false,
                    ..self
                },
                Ok(Responded::Dropped) => false,
                Err(_) => after == ChannelState {
                    in_flight: self.in_flight.remove(response.request_id),
                    writable: false,
                    ..self
                },
            }
        }
    }

    /// What reading one frame does. Nothing is read before the transport can
    /// take a rejection. A cancellation aborts the handler it names. A
    /// request is yielded while there is room and rejected otherwise. The end
    /// of the stream and a failure of the transport abort every handler.
    pub open spec fn polled_next(self, after: Self, next: PollIo<Incoming<Req>>) -> bool {
        match next {
            Poll::Pending => after == ChannelState { writable: after.writable, ..self },
            Poll::Ready(None) => ChannelState { done: true, writable: after.writable, ..self }.aborted_everything(
                after,
            ),
            Poll::Ready(Some(Err(_))) => ChannelState {
                sent: after.sent,
                received: after.received,
                writable: after.writable,
                ..self
            }.aborted_everything(after) && after.sent == self.sent && (after.received == self.received
                || after.received.drop_last() == self.received),
            Poll::Ready(Some(Ok(incoming))) => {
                &&& !self.done
                &&& after.received == self.received.push(after.received.last())
                &&& match incoming {
                    Incoming::Request(request) => {
                        &&& after.received.last() == ClientMessage::Request(request)
                        &&& !self.at_capacity()
                        &&& after == ChannelState { received: after.received, writable: true, ..self }
                    },
                    Incoming::Rejected(request_id) => {
                        &&& after.received.last() is Request
                        &&& after.received.last().spec_request_id() == request_id
                        &&& self.at_capacity()
                        &&& after.sent.len() == self.sent.len() + 1
                        &&& is_overloaded(after.sent.last(), request_id)
                        &&& after == ChannelState {
                            received: after.received,
                            sent: self.sent.push(after.sent.last()),
                            writable: false,
                            ..self
                        }
                    },
                    Incoming::Cancelled(request_id) => {
                        &&& after.received.last() is Cancel
                        &&& after.received.last().spec_request_id() == request_id
                        &&& after == ChannelState { received: after.received, writable: true, ..self.abort(request_id) }
                    },
                }
            },
        }
    }
}

/// The exchanges of a server channel with its transport.
pub type Answers<Req, Resp> = Seq<Exchange<Response<Resp>, ClientMessage<Req>>>;

impl<Req, Resp, A> ChannelState<Req, Resp, A> {
    /// What reading one frame gives, as a function of what the transport
    /// answered. The transport is asked for room first: without room nothing
    /// is read, and its error is the error. Then one frame is read: a pending
    /// transport leaves the step pending, its end and its error are passed
    /// on, a cancellation is reported, and a request is yielded if there is
    /// room for its handler, or else rejected with a frame that says so,
    /// whose refusal by the transport is the error.
    pub open spec fn next_answer(self, answers: Answers<Req, Resp>) -> Asked<PollIo<Incoming<Req>>> {
        let invalid = Asked { answer: Poll::Pending, asked: 0, valid: false };
        let ready = writable_step(answers);
        match ready.answer {
            Poll::Pending => Asked { answer: Poll::Pending, asked: ready.asked, valid: ready.valid },
            Poll::Ready(Err(e)) => Asked { answer: Poll::Ready(Some(Err(e))), asked: ready.asked, valid: ready.valid },
            Poll::Ready(Ok(_)) => if self.done {
                Asked { answer: Poll::Ready(None), asked: ready.asked, valid: ready.valid }
            } else if answers.len() <= ready.asked {
                invalid
            } else {
                match answers[ready.asked as int] {
                    Exchange::Read(Poll::Pending) => Asked {
                        answer: Poll::Pending,
                        asked: ready.asked + 1,
                        valid: ready.valid,
                    },
                    Exchange::Read(Poll::Ready(None)) => Asked {
                        answer: Poll::Ready(None),
                        asked: ready.asked + 1,
                        valid: ready.valid,
                    },
                    Exchange::Read(Poll::Ready(Some(Err(e)))) => Asked {
                        answer: Poll::Ready(Some(Err(e))),
                        asked: ready.asked + 1,
                        valid: ready.valid,
                    },
                    Exchange::Read(Poll::Ready(Some(Ok(ClientMessage::Cancel { request_id, .. })))) => Asked {
                        answer: Poll::Ready(Some(Ok(Incoming::Cancelled(request_id)))),
                        asked: ready.asked + 1,
                        valid: ready.valid,
                    },
                    Exchange::Read(Poll::Ready(Some(Ok(ClientMessage::Request(request))))) => if !self.at_capacity() {
                        Asked {
                            answer: Poll::Ready(Some(Ok(Incoming::Request(request)))),
                            asked: ready.asked + 1,
                            valid: ready.valid,
                        }
                    } else if answers.len() <= ready.asked + 1 {
                        invalid
                    } else {
                        match answers[ready.asked as int + 1] {
                            Exchange::Sent(rejection, answer) => Asked {
                                answer: match answer {
                                    Ok(_) => Poll::Ready(Some(Ok(Incoming::Rejected(request.id)))),
                                    Err(e) => Poll::Ready(Some(Err(e))),
                                },
                                asked: ready.asked + 2,
                                valid: ready.valid && is_overloaded(rejection, request.id),
                            },
                            _ => invalid,
                        }
                    },
                    _ => invalid,
                }
            },
        }
    }

    /// What writing a response gives, as a function of what the transport
    /// answered. The response of a handler that is not registered is dropped
    /// and the transport is left alone. Else the transport is asked for
    /// room: without room the response is handed back, its error is the
    /// error, and with room the response is handed over, whose refusal is
    /// the error.
    pub open spec fn respond_answer(self, response: Response<Resp>, answers: Answers<Req, Resp>) -> Asked<
        Result<Responded<Resp>, TransportError>,
    > {
        let invalid = Asked { answer: Ok(Responded::Dropped), asked: 0, valid: false };
        if !self.in_flight.contains_key(response.request_id) {
            Asked { answer: Ok(Responded::Dropped), asked: 0, valid: true }
        } else {
            let ready = writable_step(answers);
            match ready.answer {
                Poll::Pending => Asked {
                    answer: Ok(Responded::NotReady(response)),
                    asked: ready.asked,
                    valid: ready.valid,
                },
                Poll::Ready(Err(e)) => Asked { answer: Err(e), asked: ready.asked, valid: ready.valid },
                Poll::Ready(Ok(_)) => if answers.len() <= ready.asked {
                    invalid
                } else {
                    match answers[ready.asked as int] {
                        Exchange::Sent(handed, answer) => Asked {
                            answer: match answer {
                                Ok(_) => Ok(Responded::Sent),
                                Err(e) => Err(e),
                            },
                            asked: ready.asked + 1,
                            valid: ready.valid && handed == response,
                        },
                        _ => invalid,
                    }
                },
            }
        }
    }
}

/// Reads frames from a transport, keeps an abort handle and a deadline for
/// every handler that runs, and writes the responses of the handlers.
pub struct BaseChannel<Req, Resp, A, T> {
    config: Config,
    /// Reads requests off the wire and writes responses to the wire.
    transport: Fuse<T, Response<Resp>, ClientMessage<Req>>,
    /// The handlers that run.
    in_flight_requests: IdMap<HandlerData<A>>,
    /// The abort handles that have to be fired.
    aborted: Vec<A>,
}

impl<Req, Resp, A, T: Transport<Response<Resp>, ClientMessage<Req>>> View for BaseChannel<Req, Resp, A, T> {
    type V = ChannelState<Req, Resp, A>;

    closed spec fn view(&self) -> ChannelState<Req, Resp, A> {
        ChannelState {
            config: self.config,
            in_flight: self.in_flight_requests@,
            aborted: self.aborted@,
            sent: self.transport.sent(),
            received: self.transport.received(),
            writable: self.transport.writable(),
            done: self.transport.done(),
        }
    }
}

impl<Req, Resp, A, T: Transport<Response<Resp>, ClientMessage<Req>>> BaseChannel<Req, Resp, A, T> {
    /// Everything this channel has asked of its transport and what the
    /// transport answered, oldest first.
    pub closed spec fn exchanges(&self) -> Answers<Req, Resp> {
        self.transport.exchanges()
    }

    /// A channel over `transport` with the limits of `config`.
    pub fn new(config: Config, transport: T) -> (channel: Self)
        ensures
            channel@ == ChannelState::<Req, Resp, A>::initial(config),
            channel@.within_limit(),
    {
        let channel = BaseChannel {
            config,
            transport: Fuse::new(transport),
            in_flight_requests: IdMap::new(),
            aborted: Vec::new(),
        };
        assert(channel@ =~= ChannelState::<Req, Resp, A>::initial(config));
        channel
    }

    /// A channel over `transport` with the default limits.
    pub fn with_defaults(transport: T) -> (channel: Self)
        ensures
            channel@ == ChannelState::<Req, Resp, A>::initial(
                Config { max_in_flight_requests_per_connection: 1000, pending_response_buffer: 100 },
            ),
    {
        Self::new(Config { max_in_flight_requests_per_connection: 1000, pending_response_buffer: 100 }, transport)
    }

    /// The limits this channel was made with.
    pub fn config(&self) -> (config: Config)
        ensures
            config == self@.config,
    {
        self.config
    }

    /// How many handlers run.
    pub fn in_flight_requests(&self) -> (count: usize)
        ensures
            self@.in_flight.dom().finite(),
            count == self@.in_flight.len(),
    {
        self.in_flight_requests.len()
    }

    /// Registers the handler of the request `request_id`, which has to be
    /// through at `deadline` and is stopped by `abort_handle`. Refused, with
    /// the handle handed back, if a handler runs for that identifier already
    /// or if as many handlers run as there may.
    pub fn start_request(&mut self, request_id: u64, deadline: Timestamp, abort_handle: A) -> (result: Result<(), A>)
        ensures
            final(self).exchanges() == old(self).exchanges(),
            match result {
                Ok(()) => {
                    &&& !old(self)@.in_flight.contains_key(request_id)
                    &&& !old(self)@.at_capacity()
                    &&& final(self)@ == (ChannelState {
                        in_flight: old(self)@.in_flight.insert(request_id, HandlerData { abort_handle, deadline }),
                        ..old(self)@
                    })
                },
                Err(back) => {
                    &&& old(self)@.in_flight.contains_key(request_id) || old(self)@.at_capacity()
                    &&& back == abort_handle
                    &&& final(self)@ == old(self)@
                },
            },
            old(self)@.within_limit() ==> final(self)@.within_limit(),
    {
        if self.in_flight_requests.len() >= self.config.max_in_flight_requests_per_connection {
            return Err(abort_handle);
        }
        match self.in_flight_requests.insert(request_id, HandlerData { abort_handle, deadline }) {
            Ok(_) => {
                assert(self@ =~= (ChannelState {
                    in_flight: old(self)@.in_flight.insert(request_id, HandlerData { abort_handle, deadline }),
                    ..old(self)@
                }));
                Ok(())
            },
            Err(data) => Err(data.abort_handle),
        }
    }

    /// Aborts the handler of the request `request_id`, if it runs: the entry
    /// leaves the table and its abort handle is to be fired. The result says
    /// whether the handler ran.
    pub fn cancel_request(&mut self, request_id: u64) -> (found: bool)
        ensures
            final(self).exchanges() == old(self).exchanges(),
            found == old(self)@.in_flight.contains_key(request_id),
            final(self)@ == old(self)@.abort(request_id),
            old(self)@.within_limit() ==> final(self)@.within_limit(),
    {
        match self.in_flight_requests.remove(request_id) {
            Some(data) => {
                self.aborted.push(data.abort_handle);
                assert(self@ =~= old(self)@.abort(request_id));
                proof {
                    if old(self)@.within_limit() {
                        old(self)@.in_flight.lemma_remove_key_len(request_id);
                    }
                }
                true
            },
            None => {
                assert(self@ =~= old(self)@);
                false
            },
        }
    }

    /// Aborts every handler that runs.
    pub fn abort_all(&mut self)
        ensures
            final(self).exchanges() == old(self).exchanges(),
            old(self)@.aborted_everything(final(self)@),
            final(self)@.within_limit(),
    {
        let ghost before = self@;
        let ghost from = before.aborted.len() as int;
        let len = self.in_flight_requests.len();
        let mut remaining: usize = len;
        while remaining > 0
            invariant
                self.config == old(self).config,
                self.transport == old(self).transport,
                before == old(self)@,
                from == before.aborted.len(),
                before.in_flight.dom().finite(),
                self@.in_flight.dom().finite(),
                remaining == self@.in_flight.len(),
                from <= self@.aborted.len(),
                self@.aborted.len() + self@.in_flight.len() == from + before.in_flight.len(),
                self@.aborted.subrange(0, from) == before.aborted,
                forall|id: u64| #[trigger]
                    self@.in_flight.contains_key(id) ==> before.in_flight.contains_key(id) && self@.in_flight[id]
                        == before.in_flight[id],
                forall|id: u64| #[trigger]
                    before.in_flight.contains_key(id) ==> self@.in_flight.contains_key(id) || fired_since(
                        self@.aborted,
                        from,
                        before.in_flight[id].abort_handle,
                    ),
                forall|i: int| from <= i < self@.aborted.len() ==> stops_one_of(before.in_flight, #[trigger] self@.aborted[i]),
            decreases remaining,
        {
            let ghost earlier = self@;
            match self.in_flight_requests.pop() {
                Some((id, data)) => {
                    proof {
                        earlier.in_flight.lemma_remove_key_len(id);
                    }
                    self.aborted.push(data.abort_handle);
                    remaining = remaining - 1;
                    proof {
                        let later = self@;
                        let at = earlier.aborted.len() as int;
                        assert(later.aborted == earlier.aborted.push(data.abort_handle));
                        assert(later.in_flight == earlier.in_flight.remove(id));
                        assert(data.abort_handle == before.in_flight[id].abort_handle);
                        assert(later.aborted[at] == before.in_flight[id].abort_handle);
                        assert(later.aborted.subrange(0, from) =~= earlier.aborted.subrange(0, from));
                        assert forall|other: u64| #[trigger]
                            before.in_flight.contains_key(other) implies later.in_flight.contains_key(other)
                            || fired_since(later.aborted, from, before.in_flight[other].abort_handle) by {
                            if other == id {
                                assert(from <= at < later.aborted.len());
                            } else if !earlier.in_flight.contains_key(other) {
                                let i = choose|i: int|
                                    from <= i < earlier.aborted.len() && earlier.aborted[i]
                                        == before.in_flight[other].abort_handle;
                                assert(later.aborted[i] == earlier.aborted[i]);
                            } else {
                                assert(later.in_flight.contains_key(other));
                            }
                        }
                        assert forall|i: int| from <= i < later.aborted.len() implies stops_one_of(
                            before.in_flight,
                            #[trigger] later.aborted[i],
                        ) by {
                            if i < at {
                                assert(later.aborted[i] == earlier.aborted[i]);
                            } else {
                                assert(before.in_flight.contains_key(id));
                            }
                        }
                    }
                },
                None => {
                    assert(false);
                },
            }
        }
        proof {
            assert(self@.in_flight.dom() =~= Set::<u64>::empty());
            assert(self@.in_flight =~= Map::<u64, HandlerData<A>>::empty());
            assert(self@ =~= (ChannelState { in_flight: Map::empty(), aborted: self@.aborted, ..before }));
            assert forall|id: u64| #[trigger] before.in_flight.contains_key(id) implies fired_since(
                self@.aborted,
                from,
                before.in_flight[id].abort_handle,
            ) by {
                assert(!self@.in_flight.contains_key(id));
            }
        }
    }

    /// Hands out the abort handles that have to be fired, oldest first.
    pub fn take_aborted(&mut self) -> (aborted: Vec<A>)
        ensures
            final(self).exchanges() == old(self).exchanges(),
            aborted@ == old(self)@.aborted,
            final(self)@ == (ChannelState { aborted: Seq::empty(), ..old(self)@ }),
            old(self)@.within_limit() ==> final(self)@.within_limit(),
    {
        let mut aborted: Vec<A> = Vec::new();
        std::mem::swap(&mut aborted, &mut self.aborted);
        assert(self@ =~= (ChannelState { aborted: Seq::empty(), ..old(self)@ }));
        aborted
    }

    /// Gives the channel up while handlers may still run. Every handler is
    /// aborted: the result holds the abort handle of each of them, behind
    /// those that were to be fired already.
    pub fn shutdown(self) -> (aborted: Vec<A>)
        ensures
            aborted_all(self@.aborted, self@.in_flight, aborted@),
    {
        let mut channel = self;
        channel.abort_all();
        channel.take_aborted()
    }

    /// Reads one frame and acts on it: a request is yielded if there is room
    /// for its handler and rejected as overloaded otherwise; a cancellation
    /// aborts the handler it names. Nothing is read before the transport can
    /// take a rejection. At the end of the stream, and when the transport
    /// fails, every handler is aborted.
    pub fn poll_next(&mut self) -> (next: PollIo<Incoming<Req>>)
        ensures
            old(self)@.polled_next(final(self)@, next),
            extends(final(self).exchanges(), old(self).exchanges()),
            old(self)@.next_answer(since(final(self).exchanges(), old(self).exchanges())) == (Asked {
                answer: next,
                asked: since(final(self).exchanges(), old(self).exchanges()).len(),
                valid: true,
            }),
            old(self)@.within_limit() ==> final(self)@.within_limit(),
    {
        let ghost before = self@;
        let ghost ex0 = self.exchanges();
        let ready = self.transport.poll_writable();
        let ghost ex1 = self.exchanges();
        match ready {
            Poll::Ready(Ok(_)) => {},
            Poll::Ready(Err(e)) => {
                let ghost mid = self@;
                assert(mid =~= (ChannelState { writable: mid.writable, ..before }));
                self.abort_all();
                assert(self@.received == before.received);
                return Poll::Ready(Some(Err(e)));
            },
            Poll::Pending => {
                assert(self@ =~= (ChannelState { writable: self@.writable, ..before }));
                return Poll::Pending;
            },
        }
        let read = self.transport.poll_next();
        let ghost answer = read;
        let ghost ex2 = self.exchanges();
        proof {
            assert(ex2.subrange(0, ex1.len() as int) =~= ex1);
            if before.done {
                assert(since(ex2, ex1) =~= Seq::empty());
            } else {
                assert(since(ex2, ex1) =~= seq![Exchange::Read(answer)]);
            }
            lemma_since_chain(ex0, ex1, ex2);
            lemma_writable_step_prefix(since(ex1, ex0), since(ex2, ex0));
        }
        match read {
            Poll::Pending => {
                assert(self@ =~= (ChannelState { writable: self@.writable, ..before }));
                Poll::Pending
            },
            Poll::Ready(None) => {
                let ghost mid = self@;
                assert(mid =~= (ChannelState { done: true, writable: mid.writable, ..before }));
                self.abort_all();
                Poll::Ready(None)
            },
            Poll::Ready(Some(Err(e))) => {
                let ghost mid = self@;
                assert(mid =~= (ChannelState { writable: mid.writable, ..before }));
                self.abort_all();
                assert(self@.received == before.received);
                Poll::Ready(Some(Err(e)))
            },
            Poll::Ready(Some(Ok(ClientMessage::Cancel { trace_context, request_id }))) => {
                let ghost mid = self@;
                assert(mid.received.last() == (ClientMessage::<Req>::Cancel { trace_context, request_id }));
                assert(mid =~= (ChannelState { received: mid.received, writable: true, ..before }));
                self.cancel_request(request_id);
                assert(self@ =~= (ChannelState { received: mid.received, writable: true, ..before.abort(request_id) }));
                Poll::Ready(Some(Ok(Incoming::Cancelled(request_id))))
            },
            Poll::Ready(Some(Ok(ClientMessage::Request(request)))) => {
                let ghost mid = self@;
                assert(mid.received.last() == ClientMessage::Request(request));
                assert(mid =~= (ChannelState { received: mid.received, writable: true, ..before }));
                if self.in_flight_requests.len() < self.config.max_in_flight_requests_per_connection {
                    return Poll::Ready(Some(Ok(Incoming::Request(request))));
                }
                let request_id = request.id;
                let rejection = Response {
                    request_id,
                    message: Err(
                        ServerError {
                            kind: ErrorKind::Overloaded,
                            detail: Some("Server throttled the request.".to_owned()),
                        },
                    ),
                };
                let ghost frame = rejection;
                let sent = self.transport.start_send(rejection);
                proof {
                    let ex = self.exchanges();
                    assert(ex.subrange(0, ex2.len() as int) =~= ex2);
                    assert(since(ex, ex2) =~= seq![Exchange::Sent(frame, sent)]);
                    lemma_since_chain(ex1, ex2, ex);
                    lemma_since_chain(ex0, ex1, ex);
                    lemma_writable_step_prefix(since(ex1, ex0), since(ex, ex0));
                    assert(since(ex, ex1) =~= seq![Exchange::Read(answer), Exchange::Sent(frame, sent)]);
                    assert(is_overloaded(frame, request_id));
                }
                match sent {
                    Ok(_) => {
                        assert(self@.sent.last() == rejection);
                        assert(self@ =~= (ChannelState {
                            received: mid.received,
                            sent: before.sent.push(rejection),
                            writable: false,
                            ..before
                        }));
                        Poll::Ready(Some(Ok(Incoming::Rejected(request_id))))
                    },
                    Err(e) => {
                        let ghost failed = self@;
                        assert(failed =~= (ChannelState {
                            received: mid.received,
                            writable: false,
                            ..before
                        }));
                        self.abort_all();
                        assert(self@.received.drop_last() =~= before.received);
                        Poll::Ready(Some(Err(e)))
                    },
                }
            },
        }
    }

    /// The deadline that passes first, if any handler runs.
    pub fn next_deadline(&self) -> (deadline: Option<Timestamp>)
        ensures
            match deadline {
                Some(deadline) => is_next_deadline(self@.in_flight, deadline),
                None => self@.in_flight == Map::<u64, HandlerData<A>>::empty(),
            },
    {
        match first_to_expire(&self.in_flight_requests) {
            Some(id) => match self.in_flight_requests.get(id) {
                Some(data) => {
                    assert(expires_first(self@.in_flight, id) && self@.in_flight[id].expires_at() == data.deadline);
                    Some(data.deadline)
                },
                None => None,
            },
            None => None,
        }
    }

    /// Aborts the handler whose deadline has passed at `now` and expires
    /// first. `Ready(None)` says that no handler runs, `Pending` that no
    /// deadline has passed yet.
    pub fn poll_expired(&mut self, now: Timestamp) -> (expired: Poll<Option<u64>>)
        ensures
            final(self).exchanges() == old(self).exchanges(),
            old(self)@.expired(final(self)@, now, expired),
            old(self)@.within_limit() ==> final(self)@.within_limit(),
    {
        let id = match first_to_expire(&self.in_flight_requests) {
            Some(id) => id,
            None => {
                return Poll::Ready(None);
            },
        };
        let elapsed = match self.in_flight_requests.get(id) {
            Some(data) => data.deadline.elapsed(now),
            None => false,
        };
        if !elapsed {
            assert(expires_first(self@.in_flight, id) && !self@.in_flight[id].deadline.spec_elapsed(now));
            return Poll::Pending;
        }
        self.cancel_request(id);
        Poll::Ready(Some(id))
    }

    /// Writes the response of a handler that is through. The handler leaves
    /// the table. If it is no longer registered, because its request was
    /// cancelled or has expired, the response is dropped: nobody waits for it.
    pub fn respond(&mut self, response: Response<Resp>) -> (result: Result<Responded<Resp>, TransportError>)
        ensures
            old(self)@.responded(final(self)@, response, result),
            extends(final(self).exchanges(), old(self).exchanges()),
            old(self)@.respond_answer(response, since(final(self).exchanges(), old(self).exchanges())) == (Asked {
                answer: result,
                asked: since(final(self).exchanges(), old(self).exchanges()).len(),
                valid: true,
            }),
            old(self)@.within_limit() ==> final(self)@.within_limit(),
    {
        let ghost ex0 = self.exchanges();
        if !self.in_flight_requests.contains(response.request_id) {
            proof {
                assert(ex0.subrange(0, ex0.len() as int) =~= ex0);
                assert(since(ex0, ex0) =~= Seq::empty());
            }
            return Ok(Responded::Dropped);
        }
        let ready = self.transport.poll_writable();
        let ghost ex1 = self.exchanges();
        match ready {
            Poll::Ready(Ok(_)) => {},
            Poll::Ready(Err(e)) => {
                let _ = self.in_flight_requests.remove(response.request_id);
                proof {
                    if old(self)@.within_limit() {
                        old(self)@.in_flight.lemma_remove_key_len(response.request_id);
                    }
                    assert(self@ =~= (ChannelState {
                        in_flight: old(self)@.in_flight.remove(response.request_id),
                        writable: false,
                        ..old(self)@
                    }));
                }
                return Err(e);
            },
            Poll::Pending => {
                assert(self@ =~= (ChannelState { writable: false, ..old(self)@ }));
                return Ok(Responded::NotReady(response));
            },
        }
        let _ = self.in_flight_requests.remove(response.request_id);
        proof {
            if old(self)@.within_limit() {
                old(self)@.in_flight.lemma_remove_key_len(response.request_id);
            }
        }
        let ghost frame = response;
        let sent = self.transport.start_send(response);
        proof {
            let ex = self.exchanges();
            assert(ex.subrange(0, ex1.len() as int) =~= ex1);
            assert(since(ex, ex1) =~= seq![Exchange::Sent(frame, sent)]);
            lemma_since_chain(ex0, ex1, ex);
            lemma_writable_step_prefix(since(ex1, ex0), since(ex, ex0));
        }
        match sent {
            Ok(_) => {
                assert(self@ =~= (ChannelState {
                    in_flight: old(self)@.in_flight.remove(response.request_id),
                    sent: old(self)@.sent.push(response),
                    writable: false,
                    ..old(self)@
                }));
                Ok(Responded::Sent)
            },
            Err(e) => {
                assert(self@ =~= (ChannelState {
                    in_flight: old(self)@.in_flight.remove(response.request_id),
                    writable: false,
                    ..old(self)@
                }));
                Err(e)
            },
        }
    }

    /// Pushes what the transport has buffered toward the wire.
    pub fn poll_flush(&mut self) -> (flushed: Poll<Result<(), TransportError>>)
        ensures
            final(self)@ == (ChannelState { writable: false, ..old(self)@ }),
            final(self).exchanges() == old(self).exchanges().push(Exchange::Flushed(flushed)),
            old(self)@.within_limit() ==> final(self)@.within_limit(),
    {
        let flushed = self.transport.poll_flush();
        assert(self@ =~= (ChannelState { writable: false, ..old(self)@ }));
        flushed
    }
}

/// After the handler of a request was aborted, whether by a cancellation, by
/// its deadline or with the channel, a response for that request is dropped:
/// no frame is written for a caller that has stopped waiting.
pub proof fn lemma_aborted_handler_sends_nothing<Req, Resp, A>(
    state: ChannelState<Req, Resp, A>,
    after: ChannelState<Req, Resp, A>,
    response: Response<Resp>,
    result: Result<Responded<Resp>, TransportError>,
)
    requires
        state.abort(response.request_id).responded(after, response, result),
    ensures
        result == Ok::<Responded<Resp>, TransportError>(Responded::Dropped),
        after == state.abort(response.request_id),
        after.sent == state.sent,
{
}

/// Giving a channel up aborts every handler that runs on it: each of their
/// abort handles is among those that are fired, and the table is empty.
pub proof fn lemma_shutdown_aborts_every_handler<Req, Resp, A>(
    before: ChannelState<Req, Resp, A>,
    after: ChannelState<Req, Resp, A>,
    request_id: u64,
)
    requires
        before.aborted_everything(after),
        before.in_flight.contains_key(request_id),
    ensures
        !after.in_flight.contains_key(request_id),
        after.aborted.contains(before.in_flight[request_id].abort_handle),
{
    let handle = before.in_flight[request_id].abort_handle;
    assert(fired_since(after.aborted, before.aborted.len() as int, handle));
    let i = choose|i: int| before.aborted.len() <= i < after.aborted.len() && after.aborted[i] == handle;
    assert(after.aborted[i] == handle);
}

/// Reading a frame never brings the number of handlers above the limit, and
/// a request is yielded only while there is room for its handler.
pub proof fn lemma_limit_kept_by_reading<Req, Resp, A>(
    before: ChannelState<Req, Resp, A>,
    after: ChannelState<Req, Resp, A>,
    next: PollIo<Incoming<Req>>,
)
    requires
        before.within_limit(),
        before.polled_next(after, next),
    ensures
        after.within_limit(),
        next matches Poll::Ready(Some(Ok(Incoming::Request(_)))) ==> !after.at_capacity(),
{
    match next {
        Poll::Ready(Some(Ok(Incoming::Cancelled(request_id)))) => {
            if before.in_flight.contains_key(request_id) {
                before.in_flight.lemma_remove_key_len(request_id);
            }
        },
        _ => {},
    }
}

/// The frame by which a client cancels a request is one on which the server
/// aborts the handler of that request: when the channel reads a cancellation
/// that names a handler that runs, the handler leaves the table, its abort
/// handle is the next to be fired, and nothing is written for it.
pub proof fn lemma_cancellation_aborts_handler<Req, Resp, A>(
    before: ChannelState<Req, Resp, A>,
    after: ChannelState<Req, Resp, A>,
    next: PollIo<Incoming<Req>>,
    trace_context: crate::trace::Context,
    request_id: u64,
)
    requires
        before.polled_next(after, next),
        next matches Poll::Ready(Some(Ok(_))),
        after.received.last() == (ClientMessage::<Req>::Cancel { trace_context, request_id }),
        before.in_flight.contains_key(request_id),
    ensures
        next == Poll::<Option<Result<Incoming<Req>, TransportError>>>::Ready(Some(Ok(Incoming::Cancelled(request_id)))),
        !after.in_flight.contains_key(request_id),
        after.aborted == before.aborted.push(before.in_flight[request_id].abort_handle),
        after.sent == before.sent,
{
}

} // verus!
