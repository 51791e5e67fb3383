use tarpc::client::channel::{self, Channel, DispatchResponse, RequestDispatch};
use tarpc::client::response_slot::{Deliveries, RequestCancellation};
use tarpc::client::Config;
use tarpc::context::{self, Timestamp};
use tarpc::error::{CallError, TransportError};
use tarpc::message::{ClientMessage, Response};
use tarpc::poll::Poll;
use tarpc::transport::Transport;
use tokio::sync::mpsc;
use tokio::sync::oneshot::{self, error::TryRecvError};

const NOW: Timestamp = Timestamp { nanos: 1_000 };

/// A transport that accepts every frame and keeps it.
#[derive(Default)]
struct Outbox(std::rc::Rc<std::cell::RefCell<Vec<ClientMessage<String>>>>);

impl Transport<ClientMessage<String>, Response<String>> for Outbox {
    fn poll_ready(&mut self) -> Poll<Result<(), TransportError>> {
        Poll::Ready(Ok(()))
    }

    fn start_send(&mut self, item: ClientMessage<String>) -> Result<(), TransportError> {
        self.0.borrow_mut().push(item);
        Ok(())
    }

    fn poll_flush(&mut self) -> Poll<Result<(), TransportError>> {
        Poll::Ready(Ok(()))
    }

    fn poll_next(&mut self) -> Poll<Option<Result<Response<String>, TransportError>>> {
        Poll::Pending
    }
}

type Dispatch = RequestDispatch<String, String, oneshot::Sender<Response<String>>, Outbox>;

fn set_up() -> (Dispatch, Channel<String, String>, std::rc::Rc<std::cell::RefCell<Vec<ClientMessage<String>>>>) {
    let outbox = Outbox::default();
    let sent = outbox.0.clone();
    let client = channel::new(Config::default(), outbox);
    (client.dispatch, client.client, sent)
}

#[test]
fn dispatch_response_cancels_on_drop() {
    let (cancel_tx, mut canceled_requests) = mpsc::unbounded_channel();
    let mut cancellation = RequestCancellation::new(cancel_tx);
    let (response_completion, mut response) = oneshot::channel::<Response<u32>>();
    let mut handle = DispatchResponse { ctx: context::current(NOW).unwrap(), complete: false, request_id: 3 };
    // What dropping the handle does: close the slot, then send the cancellation.
    assert_eq!(handle.give_up(&mut response, &mut cancellation), Some(3));
    assert!(response_completion.is_closed());
    assert_eq!(canceled_requests.try_recv(), Ok(3));
    // Once is enough.
    assert_eq!(handle.give_up(&mut response, &mut cancellation), None);
    assert_eq!(canceled_requests.try_recv(), Err(mpsc::error::TryRecvError::Empty));
}

#[test]
fn a_resolved_handle_cancels_nothing() {
    let (cancel_tx, mut canceled_requests) = mpsc::unbounded_channel();
    let mut cancellation = RequestCancellation::new(cancel_tx);
    let (response_completion, mut response) = oneshot::channel::<Response<u32>>();
    let mut handle = DispatchResponse { ctx: context::current(NOW).unwrap(), complete: false, request_id: 3 };
    assert_eq!(handle.poll(Poll::Ready(Some(Response { request_id: 3, message: Ok(5u32) })), NOW), Poll::Ready(Ok(5)));
    assert_eq!(handle.give_up(&mut response, &mut cancellation), None);
    assert!(!response_completion.is_closed());
    assert_eq!(canceled_requests.try_recv(), Err(mpsc::error::TryRecvError::Empty));
}

#[test]
fn cancelling_without_a_dispatcher_is_harmless() {
    let (cancel_tx, canceled_requests) = mpsc::unbounded_channel();
    drop(canceled_requests);
    let mut cancellation = RequestCancellation::new(cancel_tx);
    cancellation.cancel(1);
    let mut clone = cancellation.clone();
    clone.cancel(2);
}

#[test]
fn clones_of_a_cancellation_reach_the_same_dispatcher() {
    let (cancel_tx, mut canceled_requests) = mpsc::unbounded_channel();
    let mut cancellation = RequestCancellation::new(cancel_tx);
    let mut clone = cancellation.clone();
    cancellation.cancel(1);
    clone.cancel(2);
    assert_eq!(canceled_requests.try_recv(), Ok(1));
    assert_eq!(canceled_requests.try_recv(), Ok(2));
}

#[test]
fn a_request_whose_slot_is_closed_at_hand_over_is_never_written() {
    let (mut dispatch, channel, sent) = set_up();
    let (response_completion, mut response) = oneshot::channel();
    let (request, _handle) = channel.send(context::current(NOW).unwrap(), "hi".to_string(), response_completion);
    response.close();
    assert!(dispatch.stage_observed(request).is_ok());
    assert_eq!(dispatch.poll(NOW), Poll::Pending);
    assert!(sent.borrow().is_empty());
    assert!(dispatch.in_flight_requests().is_empty());
}

#[test]
fn a_request_whose_slot_is_open_at_hand_over_is_written() {
    let (mut dispatch, channel, sent) = set_up();
    let (response_completion, _response) = oneshot::channel();
    let (request, _handle) = channel.send(context::current(NOW).unwrap(), "hi".to_string(), response_completion);
    assert!(dispatch.stage_observed(request).is_ok());
    assert_eq!(dispatch.poll(NOW), Poll::Ready(Some(Ok(()))));
    assert_eq!(sent.borrow().len(), 1);
    assert!(dispatch.in_flight_requests().contains(0));
}

#[test]
fn deliver_puts_the_response_into_the_slot_of_its_caller() {
    let (mut dispatch, channel, _sent) = set_up();
    let (first_tx, mut first_rx) = oneshot::channel();
    let (second_tx, mut second_rx) = oneshot::channel();
    let (first, mut first_handle) = channel.send(context::current(NOW).unwrap(), "a".to_string(), first_tx);
    let (second, _second_handle) = channel.send(context::current(NOW).unwrap(), "b".to_string(), second_tx);
    assert!(dispatch.stage_observed(first).is_ok());
    assert!(dispatch.stage_observed(second).is_ok());
    assert_eq!(dispatch.poll(NOW), Poll::Ready(Some(Ok(()))));
    assert_eq!(dispatch.poll(NOW), Poll::Ready(Some(Ok(()))));
    assert_eq!(dispatch.deliver(&mut Deliveries::new()), 0);

    assert!(dispatch.complete(Response { request_id: 1, message: Ok("two".to_string()) }));
    assert!(dispatch.complete(Response { request_id: 0, message: Ok("one".to_string()) }));
    assert_eq!(dispatch.deliver(&mut Deliveries::new()), 2);
    assert!(dispatch.take_completed().is_empty());
    let received = first_rx.try_recv();
    assert_eq!(received, Ok(Response { request_id: 0, message: Ok("one".to_string()) }));
    assert_eq!(second_rx.try_recv(), Ok(Response { request_id: 1, message: Ok("two".to_string()) }));
    assert_eq!(first_handle.poll(Poll::Ready(received.ok()), NOW), Poll::Ready(Ok("one".to_string())));
}

#[test]
fn deliver_counts_only_the_callers_that_still_wait() {
    let (mut dispatch, channel, _sent) = set_up();
    let (gone_tx, gone_rx) = oneshot::channel();
    let (here_tx, mut here_rx) = oneshot::channel();
    let (gone, _) = channel.send(context::current(NOW).unwrap(), "a".to_string(), gone_tx);
    let (here, _) = channel.send(context::current(NOW).unwrap(), "b".to_string(), here_tx);
    assert!(dispatch.stage_observed(gone).is_ok());
    assert!(dispatch.stage_observed(here).is_ok());
    assert_eq!(dispatch.poll(NOW), Poll::Ready(Some(Ok(()))));
    assert_eq!(dispatch.poll(NOW), Poll::Ready(Some(Ok(()))));
    drop(gone_rx);
    assert!(dispatch.complete(Response { request_id: 0, message: Ok("one".to_string()) }));
    assert!(dispatch.complete(Response { request_id: 1, message: Ok("two".to_string()) }));
    assert_eq!(dispatch.deliver(&mut Deliveries::new()), 1);
    assert_eq!(here_rx.try_recv(), Ok(Response { request_id: 1, message: Ok("two".to_string()) }));
}

#[test]
fn a_dispatcher_that_is_dropped_closes_the_slots_it_holds() {
    let (mut dispatch, channel, _sent) = set_up();
    let (written_tx, mut written_rx) = oneshot::channel();
    let (staged_tx, mut staged_rx) = oneshot::channel();
    let (written, mut handle) = channel.send(context::current(NOW).unwrap(), "a".to_string(), written_tx);
    assert!(dispatch.stage_observed(written).is_ok());
    assert_eq!(dispatch.poll(NOW), Poll::Ready(Some(Ok(()))));
    let (staged, _) = channel.send(context::current(NOW).unwrap(), "b".to_string(), staged_tx);
    assert!(dispatch.stage_observed(staged).is_ok());
    assert_eq!(written_rx.try_recv(), Err(TryRecvError::Empty));
    drop(dispatch);
    assert_eq!(written_rx.try_recv(), Err(TryRecvError::Closed));
    assert_eq!(staged_rx.try_recv(), Err(TryRecvError::Closed));
    assert_eq!(handle.poll::<String>(Poll::Ready(None), NOW), Poll::Ready(Err(CallError::ResponseLost)));
}

#[test]
fn a_channel_makes_a_connected_slot_for_each_call() {
    let (mut dispatch, channel, _sent) = set_up();
    let (request, handle, mut response) = channel.send_oneshot(context::current(NOW).unwrap(), "hi".to_string());
    assert_eq!(request.request_id, 0);
    assert_eq!(handle, DispatchResponse { ctx: request.ctx, complete: false, request_id: 0 });
    assert_eq!(request.request, "hi");
    assert!(!request.response_completion.is_closed());
    assert!(dispatch.stage_observed(request).is_ok());
    assert_eq!(dispatch.poll(NOW), Poll::Ready(Some(Ok(()))));
    assert!(dispatch.complete(Response { request_id: 0, message: Ok("there".to_string()) }));
    assert_eq!(dispatch.deliver(&mut Deliveries::new()), 1);
    assert_eq!(response.try_recv(), Ok(Response { request_id: 0, message: Ok("there".to_string()) }));
    // The next call gets a slot of its own.
    let (_second, _handle, mut second_response) = channel.send_oneshot(context::current(NOW).unwrap(), "again".to_string());
    assert_eq!(second_response.try_recv(), Err(TryRecvError::Empty));
}

#[test]
fn a_caller_that_gives_up_while_its_request_is_staged_is_noticed() {
    let (mut dispatch, channel, sent) = set_up();
    let (first, _first_handle, mut first_response) = channel.send_oneshot(context::current(NOW).unwrap(), "a".to_string());
    let (second, _second_handle, _second_response) = channel.send_oneshot(context::current(NOW).unwrap(), "b".to_string());
    assert!(dispatch.stage_observed(first).is_ok());
    assert!(dispatch.stage_observed(second).is_ok());
    assert_eq!(dispatch.staged_requests(), 2);
    assert!(!dispatch.staged_slot(0).unwrap().is_closed());
    assert!(dispatch.staged_slot(2).is_none());
    // The first caller gives up after its request was staged with the slot open.
    first_response.close();
    dispatch.observe_slots();
    assert_eq!(dispatch.run(NOW, 10), Poll::Pending);
    assert_eq!(sent.borrow().len(), 1);
    assert_eq!(sent.borrow()[0].request_id(), 1);
    assert!(!dispatch.in_flight_requests().contains(0));
}

#[test]
fn staging_goes_by_what_the_slot_answered() {
    let (mut dispatch, channel, sent) = set_up();
    let (given_up, _) = channel.send(context::current(NOW).unwrap(), "a".to_string(), oneshot::channel().0);
    let (waiting, _) = channel.send(context::current(NOW).unwrap(), "b".to_string(), oneshot::channel().0);
    assert!(dispatch.stage_as(given_up, true).is_ok());
    assert!(dispatch.stage_as(waiting, false).is_ok());
    assert_eq!(dispatch.run(NOW, 10), Poll::Pending);
    assert_eq!(sent.borrow().len(), 1);
    assert_eq!(sent.borrow()[0].request_id(), 1);
}
