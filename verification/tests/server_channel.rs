use std::cell::RefCell;
use std::collections::VecDeque;
use std::rc::Rc;

use tarpc::context::{Context, Timestamp};
use tarpc::error::{ErrorKind, ServerError, TransportError};
use tarpc::message::{ClientMessage, Request, Response};
use tarpc::poll::Poll;
use tarpc::server::{response_for, BaseChannel, Config, HandlerOutcome, Incoming, Responded};
use tarpc::trace;
use tarpc::transport::Transport;

#[derive(Default)]
struct Wire {
    outbound: Vec<Response<String>>,
    inbound: VecDeque<Result<ClientMessage<String>, TransportError>>,
    inbound_closed: bool,
    busy: bool,
    fail_writes: bool,
}

#[derive(Clone, Default)]
struct Shared(Rc<RefCell<Wire>>);

impl Transport<Response<String>, ClientMessage<String>> for Shared {
    fn poll_ready(&mut self) -> Poll<Result<(), TransportError>> {
        let wire = self.0.borrow();
        if wire.fail_writes {
            Poll::Ready(Err(TransportError { detail: "broken pipe".to_string() }))
        } else if wire.busy {
            Poll::Pending
        } else {
            Poll::Ready(Ok(()))
        }
    }

    fn start_send(&mut self, item: Response<String>) -> Result<(), TransportError> {
        self.0.borrow_mut().outbound.push(item);
        Ok(())
    }

    fn poll_flush(&mut self) -> Poll<Result<(), TransportError>> {
        if self.0.borrow().busy {
            Poll::Pending
        } else {
            Poll::Ready(Ok(()))
        }
    }

    fn poll_next(&mut self) -> Poll<Option<Result<ClientMessage<String>, TransportError>>> {
        let mut wire = self.0.borrow_mut();
        match wire.inbound.pop_front() {
            Some(frame) => Poll::Ready(Some(frame)),
            None if wire.inbound_closed => Poll::Ready(None),
            None => Poll::Pending,
        }
    }
}

type Channel = BaseChannel<String, String, &'static str, Shared>;

fn ctx(deadline: u64) -> Context {
    Context { deadline: Timestamp { nanos: deadline }, trace_context: trace::Context::root(1, 2) }
}

fn request(id: u64, deadline: u64) -> Request<String> {
    Request { id, context: ctx(deadline), message: format!("m{}", id) }
}

fn cancel(id: u64) -> ClientMessage<String> {
    ClientMessage::Cancel { trace_context: trace::Context::root(1, 2), request_id: id }
}

fn set_up(max: usize) -> (Channel, Shared) {
    let wire = Shared::default();
    let config = Config { max_in_flight_requests_per_connection: max, pending_response_buffer: 10 };
    (BaseChannel::new(config, wire.clone()), wire)
}

fn overloaded(id: u64) -> Response<String> {
    Response {
        request_id: id,
        message: Err(ServerError {
            kind: ErrorKind::Overloaded,
            detail: Some("Server throttled the request.".to_string()),
        }),
    }
}

#[test]
fn a_new_channel_runs_nothing() {
    let (mut channel, _wire) = set_up(3);
    assert_eq!(channel.in_flight_requests(), 0);
    assert_eq!(channel.config().max_in_flight_requests_per_connection, 3);
    assert_eq!(channel.poll_next(), Poll::Pending);
    assert!(channel.take_aborted().is_empty());
    let defaults: Channel = BaseChannel::with_defaults(Shared::default());
    assert_eq!(defaults.config(), Config::default());
}

#[test]
fn a_request_is_yielded_and_registered() {
    let (mut channel, wire) = set_up(3);
    wire.0.borrow_mut().inbound.push_back(Ok(ClientMessage::Request(request(5, 100))));
    assert_eq!(channel.poll_next(), Poll::Ready(Some(Ok(Incoming::Request(request(5, 100))))));
    assert_eq!(channel.in_flight_requests(), 0);
    assert_eq!(channel.start_request(5, Timestamp { nanos: 100 }, "h5"), Ok(()));
    assert_eq!(channel.in_flight_requests(), 1);
}

#[test]
fn start_request_refuses_duplicates_and_overflow() {
    let (mut channel, _wire) = set_up(2);
    assert_eq!(channel.start_request(1, Timestamp { nanos: 100 }, "a"), Ok(()));
    assert_eq!(channel.start_request(1, Timestamp { nanos: 100 }, "b"), Err("b"));
    assert_eq!(channel.start_request(2, Timestamp { nanos: 100 }, "c"), Ok(()));
    assert_eq!(channel.start_request(3, Timestamp { nanos: 100 }, "d"), Err("d"));
    assert_eq!(channel.in_flight_requests(), 2);
}

#[test]
fn a_request_beyond_the_ceiling_is_rejected_as_overloaded() {
    let (mut channel, wire) = set_up(1);
    channel.start_request(1, Timestamp { nanos: 100 }, "a").unwrap();
    wire.0.borrow_mut().inbound.push_back(Ok(ClientMessage::Request(request(2, 100))));
    assert_eq!(channel.poll_next(), Poll::Ready(Some(Ok(Incoming::Rejected(2)))));
    assert_eq!(wire.0.borrow().outbound, vec![overloaded(2)]);
    assert_eq!(channel.in_flight_requests(), 1);
    assert!(channel.take_aborted().is_empty());
}

#[test]
fn a_cancellation_aborts_the_handler() {
    let (mut channel, wire) = set_up(3);
    channel.start_request(1, Timestamp { nanos: 100 }, "a").unwrap();
    channel.start_request(2, Timestamp { nanos: 100 }, "b").unwrap();
    wire.0.borrow_mut().inbound.push_back(Ok(cancel(1)));
    assert_eq!(channel.poll_next(), Poll::Ready(Some(Ok(Incoming::Cancelled(1)))));
    assert_eq!(channel.in_flight_requests(), 1);
    assert_eq!(channel.take_aborted(), vec!["a"]);
    // The aborted handler produces no response frame.
    assert_eq!(channel.respond(Response { request_id: 1, message: Ok("late".to_string()) }), Ok(Responded::Dropped));
    assert!(wire.0.borrow().outbound.is_empty());
}

#[test]
fn a_cancellation_of_an_unknown_request_changes_nothing() {
    let (mut channel, wire) = set_up(3);
    channel.start_request(1, Timestamp { nanos: 100 }, "a").unwrap();
    wire.0.borrow_mut().inbound.push_back(Ok(cancel(9)));
    assert_eq!(channel.poll_next(), Poll::Ready(Some(Ok(Incoming::Cancelled(9)))));
    assert_eq!(channel.in_flight_requests(), 1);
    assert!(channel.take_aborted().is_empty());
    assert!(!channel.cancel_request(9));
    assert!(channel.cancel_request(1));
    assert!(!channel.cancel_request(1));
    assert_eq!(channel.take_aborted(), vec!["a"]);
}

#[test]
fn a_response_is_written_and_the_handler_leaves() {
    let (mut channel, wire) = set_up(3);
    channel.start_request(1, Timestamp { nanos: 100 }, "a").unwrap();
    let response = || Response { request_id: 1, message: Ok("three".to_string()) };
    assert_eq!(channel.respond(response()), Ok(Responded::Sent));
    assert_eq!(wire.0.borrow().outbound, vec![response()]);
    assert_eq!(channel.in_flight_requests(), 0);
    assert!(channel.take_aborted().is_empty());
    // A second response for the same request is dropped.
    assert_eq!(channel.respond(response()), Ok(Responded::Dropped));
    assert_eq!(wire.0.borrow().outbound.len(), 1);
}

#[test]
fn a_response_waits_for_a_busy_transport() {
    let (mut channel, wire) = set_up(3);
    channel.start_request(1, Timestamp { nanos: 100 }, "a").unwrap();
    let response = || Response { request_id: 1, message: Ok("three".to_string()) };
    wire.0.borrow_mut().busy = true;
    assert_eq!(channel.respond(response()), Ok(Responded::NotReady(response())));
    assert_eq!(channel.in_flight_requests(), 1);
    assert_eq!(channel.poll_flush(), Poll::Pending);
    wire.0.borrow_mut().busy = false;
    assert_eq!(channel.respond(response()), Ok(Responded::Sent));
    assert_eq!(channel.poll_flush(), Poll::Ready(Ok(())));
}

#[test]
fn nothing_is_read_while_a_rejection_could_not_be_written() {
    let (mut channel, wire) = set_up(3);
    wire.0.borrow_mut().busy = true;
    wire.0.borrow_mut().inbound.push_back(Ok(ClientMessage::Request(request(2, 100))));
    assert_eq!(channel.poll_next(), Poll::Pending);
    assert_eq!(wire.0.borrow().inbound.len(), 1);
}

#[test]
fn the_end_of_the_stream_aborts_every_handler() {
    let (mut channel, wire) = set_up(3);
    channel.start_request(1, Timestamp { nanos: 100 }, "a").unwrap();
    channel.start_request(2, Timestamp { nanos: 100 }, "b").unwrap();
    wire.0.borrow_mut().inbound_closed = true;
    assert_eq!(channel.poll_next(), Poll::Ready(None));
    assert_eq!(channel.in_flight_requests(), 0);
    let mut aborted = channel.take_aborted();
    aborted.sort();
    assert_eq!(aborted, vec!["a", "b"]);
    assert_eq!(channel.poll_next(), Poll::Ready(None));
}

#[test]
fn a_read_failure_aborts_every_handler() {
    let (mut channel, wire) = set_up(3);
    channel.start_request(1, Timestamp { nanos: 100 }, "a").unwrap();
    wire.0.borrow_mut().inbound.push_back(Err(TransportError { detail: "reset".to_string() }));
    assert_eq!(channel.poll_next(), Poll::Ready(Some(Err(TransportError { detail: "reset".to_string() }))));
    assert_eq!(channel.take_aborted(), vec!["a"]);
}

#[test]
fn a_write_failure_aborts_every_handler() {
    let (mut channel, wire) = set_up(3);
    channel.start_request(1, Timestamp { nanos: 100 }, "a").unwrap();
    wire.0.borrow_mut().fail_writes = true;
    assert_eq!(channel.poll_next(), Poll::Ready(Some(Err(TransportError { detail: "broken pipe".to_string() }))));
    assert_eq!(channel.take_aborted(), vec!["a"]);
    assert_eq!(channel.in_flight_requests(), 0);
}

#[test]
fn dropping_the_channel_aborts_every_handler() {
    let (mut channel, _wire) = set_up(5);
    channel.start_request(1, Timestamp { nanos: 100 }, "a").unwrap();
    channel.start_request(2, Timestamp { nanos: 100 }, "b").unwrap();
    channel.start_request(3, Timestamp { nanos: 100 }, "c").unwrap();
    assert!(channel.cancel_request(2));
    let mut aborted = channel.shutdown();
    assert_eq!(aborted[0], "b");
    aborted.sort();
    assert_eq!(aborted, vec!["a", "b", "c"]);
}

#[test]
fn abort_all_keeps_what_was_aborted_before() {
    let (mut channel, _wire) = set_up(5);
    channel.start_request(1, Timestamp { nanos: 100 }, "a").unwrap();
    channel.start_request(2, Timestamp { nanos: 100 }, "b").unwrap();
    assert!(channel.cancel_request(1));
    channel.abort_all();
    assert_eq!(channel.in_flight_requests(), 0);
    assert_eq!(channel.take_aborted(), vec!["a", "b"]);
    channel.abort_all();
    assert!(channel.take_aborted().is_empty());
}

#[test]
fn handlers_are_aborted_at_their_deadline() {
    let (mut channel, wire) = set_up(5);
    assert_eq!(channel.poll_expired(Timestamp { nanos: 0 }), Poll::Ready(None));
    channel.start_request(1, Timestamp { nanos: 300 }, "a").unwrap();
    channel.start_request(2, Timestamp { nanos: 100 }, "b").unwrap();
    assert_eq!(channel.poll_expired(Timestamp { nanos: 99 }), Poll::Pending);
    assert_eq!(channel.poll_expired(Timestamp { nanos: 100 }), Poll::Ready(Some(2)));
    assert_eq!(channel.poll_expired(Timestamp { nanos: 100 }), Poll::Pending);
    assert_eq!(channel.take_aborted(), vec!["b"]);
    assert_eq!(channel.in_flight_requests(), 1);
    assert_eq!(channel.respond(response_for(2, HandlerOutcome::TimedOut)), Ok(Responded::Dropped));
    assert!(wire.0.borrow().outbound.is_empty());
}

#[test]
fn handler_outcomes_become_responses() {
    assert_eq!(
        response_for(4, HandlerOutcome::Completed("ok".to_string())),
        Response { request_id: 4, message: Ok("ok".to_string()) }
    );
    assert_eq!(
        response_for::<String>(5, HandlerOutcome::Failed("bad input".to_string())),
        Response {
            request_id: 5,
            message: Err(ServerError { kind: ErrorKind::Application, detail: Some("bad input".to_string()) }),
        }
    );
    assert_eq!(
        response_for::<String>(6, HandlerOutcome::TimedOut),
        Response {
            request_id: 6,
            message: Err(ServerError {
                kind: ErrorKind::DeadlineExceeded,
                detail: Some("Response did not complete before deadline.".to_string()),
            }),
        }
    );
}

#[test]
fn handlers_never_exceed_the_ceiling() {
    let (mut channel, wire) = set_up(2);
    for id in 0..6 {
        wire.0.borrow_mut().inbound.push_back(Ok(ClientMessage::Request(request(id, 100))));
    }
    let mut rejected = Vec::new();
    loop {
        match channel.poll_next() {
            Poll::Ready(Some(Ok(Incoming::Request(request)))) => {
                assert_eq!(channel.start_request(request.id, request.context.deadline, "h"), Ok(()));
            }
            Poll::Ready(Some(Ok(Incoming::Rejected(id)))) => rejected.push(id),
            Poll::Pending => break,
            other => panic!("{:?}", other),
        }
        assert!(channel.in_flight_requests() <= 2);
    }
    assert_eq!(rejected, vec![2, 3, 4, 5]);
    assert_eq!(wire.0.borrow().outbound, vec![overloaded(2), overloaded(3), overloaded(4), overloaded(5)]);
}
