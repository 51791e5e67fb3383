use tarpc::client::Config;
use tarpc::context::{self, Context, Timestamp, DEFAULT_TIMEOUT_NANOS};
use tarpc::error::{CallError, ErrorKind, ServerError};
use tarpc::message::{ClientMessage, Request};
use tarpc::poll::Poll;
use tarpc::server;
use tarpc::trace;

#[test]
fn default_deadline_is_ten_seconds_from_now() {
    assert_eq!(DEFAULT_TIMEOUT_NANOS, 10_000_000_000);
    let now = Timestamp::from_nanos(5);
    let ctx = context::current(now).unwrap();
    assert_eq!(ctx.deadline, Timestamp { nanos: 10_000_000_005 });
    assert_eq!(ctx.trace_context.parent_id, None);
}

#[test]
fn default_deadline_saturates() {
    let now = Timestamp { nanos: u64::MAX - 1 };
    assert_eq!(context::current(now).unwrap().deadline, Timestamp { nanos: u64::MAX });
}

#[test]
fn timestamp_after_adds_or_saturates() {
    assert_eq!(Timestamp { nanos: 7 }.after(50_000_000), Timestamp { nanos: 50_000_007 });
    assert_eq!(Timestamp { nanos: u64::MAX }.after(1), Timestamp { nanos: u64::MAX });
    assert_eq!(Timestamp { nanos: 0 }.after(0), Timestamp { nanos: 0 });
}

#[test]
fn deadline_elapses_at_its_own_instant() {
    let deadline = Timestamp { nanos: 100 };
    assert!(!deadline.elapsed(Timestamp { nanos: 99 }));
    assert!(deadline.elapsed(Timestamp { nanos: 100 }));
    assert!(deadline.elapsed(Timestamp { nanos: 101 }));
}

#[test]
fn with_trace_keeps_the_trace_context() {
    let trace_context = trace::Context { trace_id: 9, span_id: 8, parent_id: Some(7) };
    let ctx = Context::with_trace(Timestamp { nanos: 1 }, trace_context);
    assert_eq!(ctx.trace_context, trace_context);
    assert_eq!(ctx.deadline, Timestamp { nanos: 10_000_000_001 });
    assert_eq!(ctx.trace_id(), 9);
}

#[test]
fn child_span_keeps_trace_and_records_parent() {
    let root = trace::Context::root(0xabcdef, 17);
    assert_eq!(root, trace::Context { trace_id: 0xabcdef, span_id: 17, parent_id: None });
    let child = root.child(99);
    assert_eq!(child, trace::Context { trace_id: 0xabcdef, span_id: 99, parent_id: Some(17) });
    let grandchild = child.child(5);
    assert_eq!(grandchild, trace::Context { trace_id: 0xabcdef, span_id: 5, parent_id: Some(99) });
}

#[test]
fn random_child_keeps_trace_and_records_parent() {
    let root = trace::Context::root(42, 17);
    let child = root.new_child().unwrap();
    assert_eq!(child.trace_id, 42);
    assert_eq!(child.parent_id, Some(17));
}

#[test]
fn random_roots_differ() {
    let roots: Vec<trace::Context> = (0..8).map(|_| trace::Context::new_root().unwrap()).collect();
    assert!(roots.iter().all(|root| root.parent_id.is_none()));
    // Eight draws of 128 random bits that all agree would mean that nothing is drawn.
    assert!(roots.iter().any(|root| root.trace_id != roots[0].trace_id));
    assert!(roots.iter().any(|root| root.span_id != roots[0].span_id));
}

#[test]
fn call_error_kinds() {
    assert_eq!(CallError::Disconnected.kind(), ErrorKind::Disconnected);
    assert_eq!(CallError::ResponseLost.kind(), ErrorKind::ResponseLost);
    assert_eq!(CallError::DeadlineExceeded.kind(), ErrorKind::DeadlineExceeded);
    let overloaded = ServerError { kind: ErrorKind::Overloaded, detail: None };
    assert_eq!(CallError::Server(overloaded).kind(), ErrorKind::Overloaded);
}

#[test]
fn a_trace_needs_all_three_draws() {
    assert_eq!(
        trace::Context::drawn_root(Some(1), Some(2), Some(3)),
        Some(trace::Context { trace_id: (1u128 << 64) | 2, span_id: 3, parent_id: None })
    );
    assert_eq!(trace::Context::drawn_root(None, Some(2), Some(3)), None);
    assert_eq!(trace::Context::drawn_root(Some(1), None, Some(3)), None);
    assert_eq!(trace::Context::drawn_root(Some(1), Some(2), None), None);
}

#[test]
fn frames_name_their_request() {
    let request = ClientMessage::Request(Request {
        id: 12,
        context: context::current(Timestamp { nanos: 0 }).unwrap(),
        message: "x".to_string(),
    });
    assert_eq!(request.request_id(), 12);
    let cancel: ClientMessage<String> =
        ClientMessage::Cancel { trace_context: trace::Context::root(1, 2), request_id: 13 };
    assert_eq!(cancel.request_id(), 13);
}

#[test]
fn poll_predicates() {
    assert!(Poll::Ready(1).is_ready());
    assert!(!Poll::Ready(1).is_pending());
    assert!(Poll::<u8>::Pending.is_pending());
    assert!(!Poll::<u8>::Pending.is_ready());
}

#[test]
fn default_limits() {
    let client = Config::default();
    assert_eq!(client.max_in_flight_requests, 1000);
    assert_eq!(client.pending_request_buffer, 100);
    let server = server::Config::default();
    assert_eq!(server.max_in_flight_requests_per_connection, 1000);
    assert_eq!(server.pending_response_buffer, 100);
}
