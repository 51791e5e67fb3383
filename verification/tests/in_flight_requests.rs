use tarpc::client::in_flight_requests::{AlreadyExistsError, Completion, InFlightRequests};
use tarpc::context::{self, Context, Timestamp};
use tarpc::deadline::first_to_expire;
use tarpc::id_map::IdMap;
use tarpc::message::Response;
use tarpc::poll::Poll;
use tarpc::server::HandlerData;
use tarpc::trace;

fn ctx(deadline: u64) -> Context {
    Context { deadline: Timestamp { nanos: deadline }, trace_context: trace::Context::root(1, 2) }
}

#[test]
fn new_table_is_empty() {
    let table: InFlightRequests<u8, String> = InFlightRequests::new();
    assert_eq!(table.len(), 0);
    assert!(table.is_empty());
    assert!(!table.contains(0));
}

#[test]
fn insert_then_contains() {
    let mut table: InFlightRequests<u8, String> = InFlightRequests::new();
    assert_eq!(table.insert_request(5, ctx(10), 1), Ok(()));
    assert_eq!(table.insert_request(9, ctx(10), 2), Ok(()));
    assert_eq!(table.len(), 2);
    assert!(!table.is_empty());
    assert!(table.contains(5));
    assert!(table.contains(9));
    assert!(!table.contains(6));
}

#[test]
fn insert_refuses_duplicate_id() {
    let mut table: InFlightRequests<u8, String> = InFlightRequests::new();
    assert_eq!(table.insert_request(5, ctx(10), 1), Ok(()));
    assert_eq!(table.insert_request(5, ctx(20), 2), Err(AlreadyExistsError));
    assert_eq!(table.len(), 1);
    // The first registration stands.
    assert_eq!(table.cancel_request(5), Some(ctx(10)));
}

#[test]
fn complete_delivers_to_the_slot_of_the_request() {
    let mut table: InFlightRequests<u8, String> = InFlightRequests::new();
    table.insert_request(1, ctx(10), 11).unwrap();
    table.insert_request(2, ctx(10), 22).unwrap();
    assert!(table.complete_request(Response { request_id: 2, message: Ok("two".to_string()) }));
    assert_eq!(table.len(), 1);
    assert!(table.contains(1));
    assert!(!table.contains(2));
    let completed = table.take_completed();
    assert_eq!(
        completed,
        vec![Completion { response_completion: 22, response: Response { request_id: 2, message: Ok("two".to_string()) } }]
    );
    assert!(table.take_completed().is_empty());
}

#[test]
fn complete_unknown_id_changes_nothing() {
    let mut table: InFlightRequests<u8, String> = InFlightRequests::new();
    table.insert_request(1, ctx(10), 11).unwrap();
    assert!(!table.complete_request(Response { request_id: 7, message: Ok("x".to_string()) }));
    assert_eq!(table.len(), 1);
    assert!(table.take_completed().is_empty());
}

#[test]
fn a_request_is_completed_at_most_once() {
    let mut table: InFlightRequests<u8, String> = InFlightRequests::new();
    table.insert_request(1, ctx(10), 11).unwrap();
    assert!(table.complete_request(Response { request_id: 1, message: Ok("a".to_string()) }));
    assert!(!table.complete_request(Response { request_id: 1, message: Ok("b".to_string()) }));
    assert_eq!(table.cancel_request(1), None);
    assert_eq!(table.poll_expired(Timestamp { nanos: u64::MAX }), Poll::Ready(None));
    assert_eq!(table.take_completed().len(), 1);
}

#[test]
fn responses_are_routed_by_id_in_any_order() {
    let mut forward: InFlightRequests<u8, String> = InFlightRequests::new();
    let mut backward: InFlightRequests<u8, String> = InFlightRequests::new();
    for table in [&mut forward, &mut backward] {
        table.insert_request(1, ctx(10), 11).unwrap();
        table.insert_request(2, ctx(10), 22).unwrap();
        table.insert_request(3, ctx(10), 33).unwrap();
    }
    let response = |id: u64| Response { request_id: id, message: Ok(format!("r{}", id)) };
    assert!(forward.complete_request(response(1)));
    assert!(forward.complete_request(response(3)));
    assert!(backward.complete_request(response(3)));
    assert!(backward.complete_request(response(1)));
    let mut forward_done = forward.take_completed();
    let backward_done = backward.take_completed();
    assert_eq!(forward_done[0], Completion { response_completion: 11, response: response(1) });
    assert_eq!(forward_done[1], Completion { response_completion: 33, response: response(3) });
    forward_done.reverse();
    assert_eq!(forward_done, backward_done);
    assert!(forward.contains(2) && backward.contains(2));
    assert_eq!(forward.len(), 1);
    assert_eq!(backward.len(), 1);
}

#[test]
fn cancel_returns_the_context_and_delivers_nothing() {
    let mut table: InFlightRequests<u8, String> = InFlightRequests::new();
    table.insert_request(4, ctx(77), 1).unwrap();
    assert_eq!(table.cancel_request(4), Some(ctx(77)));
    assert_eq!(table.cancel_request(4), None);
    assert!(table.is_empty());
    assert!(table.take_completed().is_empty());
}

#[test]
fn poll_expired_on_empty_table_is_ready_none() {
    let mut table: InFlightRequests<u8, String> = InFlightRequests::new();
    assert_eq!(table.poll_expired(Timestamp { nanos: 0 }), Poll::Ready(None));
}

#[test]
fn poll_expired_is_pending_before_the_deadline() {
    let mut table: InFlightRequests<u8, String> = InFlightRequests::new();
    table.insert_request(1, ctx(100), 1).unwrap();
    assert_eq!(table.poll_expired(Timestamp { nanos: 99 }), Poll::Pending);
    assert_eq!(table.len(), 1);
    assert!(table.take_completed().is_empty());
}

/// A slot that notes when it is dropped.
struct Noted(std::rc::Rc<std::cell::Cell<bool>>);

impl Drop for Noted {
    fn drop(&mut self) {
        self.0.set(true);
    }
}

#[test]
fn poll_expired_fires_at_the_deadline() {
    let mut table: InFlightRequests<Noted, String> = InFlightRequests::new();
    let dropped = std::rc::Rc::new(std::cell::Cell::new(false));
    assert!(table.insert_request(1, ctx(100), Noted(dropped.clone())).is_ok());
    assert_eq!(table.poll_expired(Timestamp { nanos: 99 }), Poll::Pending);
    assert!(!dropped.get());
    assert_eq!(table.poll_expired(Timestamp { nanos: 100 }), Poll::Ready(Some((1, ctx(100)))));
    assert!(table.is_empty());
    // Nothing is delivered: the slot is dropped, which no response can do.
    assert!(dropped.get());
    assert!(table.take_completed().is_empty());
}

#[test]
fn poll_expired_yields_earliest_deadline_first() {
    let mut table: InFlightRequests<u8, String> = InFlightRequests::new();
    table.insert_request(1, ctx(300), 1).unwrap();
    table.insert_request(2, ctx(100), 2).unwrap();
    table.insert_request(3, ctx(200), 3).unwrap();
    table.insert_request(4, ctx(900), 4).unwrap();
    let now = Timestamp { nanos: 500 };
    assert_eq!(table.poll_expired(now), Poll::Ready(Some((2, ctx(100)))));
    assert_eq!(table.poll_expired(now), Poll::Ready(Some((3, ctx(200)))));
    assert_eq!(table.poll_expired(now), Poll::Ready(Some((1, ctx(300)))));
    assert_eq!(table.poll_expired(now), Poll::Pending);
    assert_eq!(table.len(), 1);
    assert!(table.contains(4));
}

#[test]
fn poll_expired_breaks_ties_by_smaller_id() {
    let mut table: InFlightRequests<u8, String> = InFlightRequests::new();
    table.insert_request(8, ctx(100), 1).unwrap();
    table.insert_request(3, ctx(100), 2).unwrap();
    table.insert_request(5, ctx(100), 3).unwrap();
    let now = Timestamp { nanos: 100 };
    assert_eq!(table.poll_expired(now), Poll::Ready(Some((3, ctx(100)))));
    assert_eq!(table.poll_expired(now), Poll::Ready(Some((5, ctx(100)))));
    assert_eq!(table.poll_expired(now), Poll::Ready(Some((8, ctx(100)))));
    assert_eq!(table.poll_expired(now), Poll::Ready(None));
}

#[test]
fn default_context_is_not_expired_before_ten_seconds() {
    let mut table: InFlightRequests<u8, String> = InFlightRequests::new();
    let now = Timestamp { nanos: 1_000 };
    table.insert_request(0, context::current(now).unwrap(), 1).unwrap();
    assert_eq!(table.poll_expired(Timestamp { nanos: 10_000_000_999 }), Poll::Pending);
    assert!(table.poll_expired(Timestamp { nanos: 10_000_001_000 }).is_ready());
}

#[test]
fn id_map_insert_get_remove() {
    let mut map: IdMap<&'static str> = IdMap::new();
    assert_eq!(map.len(), 0);
    assert_eq!(map.insert(3, "three"), Ok(()));
    assert_eq!(map.insert(1, "one"), Ok(()));
    assert_eq!(map.insert(3, "again"), Err("again"));
    assert_eq!(map.len(), 2);
    assert!(map.contains(1));
    assert!(!map.contains(2));
    assert_eq!(map.get(3), Some(&"three"));
    assert_eq!(map.get(2), None);
    assert_eq!(map.entry_at(0), Some((3, &"three")));
    assert_eq!(map.entry_at(1), Some((1, &"one")));
    assert_eq!(map.entry_at(2), None);
    assert_eq!(map.remove(3), Some("three"));
    assert_eq!(map.remove(3), None);
    assert_eq!(map.len(), 1);
    assert_eq!(map.pop(), Some((1, "one")));
    assert_eq!(map.pop(), None);
}

#[test]
fn first_to_expire_picks_earliest_deadline_then_smallest_id() {
    let mut map: IdMap<HandlerData<u8>> = IdMap::new();
    assert_eq!(first_to_expire(&map), None);
    map.insert(7, HandlerData { abort_handle: 0, deadline: Timestamp { nanos: 50 } }).ok().unwrap();
    map.insert(2, HandlerData { abort_handle: 0, deadline: Timestamp { nanos: 60 } }).ok().unwrap();
    assert_eq!(first_to_expire(&map), Some(7));
    map.insert(4, HandlerData { abort_handle: 0, deadline: Timestamp { nanos: 50 } }).ok().unwrap();
    assert_eq!(first_to_expire(&map), Some(4));
}
