use std::cell::RefCell;
use std::collections::VecDeque;
use std::rc::Rc;

use tarpc::client::channel::{self, Channel, DispatchResponse, RequestDispatch};
use tarpc::client::Config;
use tarpc::context::{self, Timestamp};
use tarpc::error::{CallError, TransportError};
use tarpc::message::{ClientMessage, Response};
use tarpc::poll::Poll;
use tarpc::server::{self, response_for, BaseChannel, HandlerOutcome, Incoming, Responded};
use tarpc::transport::Transport;

#[derive(Debug, Clone, PartialEq, Eq)]
enum ServiceRequest {
    Add { x: i32, y: i32 },
    Hey { name: String },
    Loop,
}

#[derive(Debug, Clone, PartialEq, Eq)]
enum ServiceResponse {
    Add(i32),
    Hey(String),
}

/// One direction of an in-memory connection.
struct Pipe<T> {
    frames: VecDeque<T>,
    closed: bool,
}

type Link<T> = Rc<RefCell<Pipe<T>>>;

fn link<T>() -> Link<T> {
    Rc::new(RefCell::new(Pipe { frames: VecDeque::new(), closed: false }))
}

/// One end of an in-memory connection: frames of `Out` go out, frames of `In` come in.
struct End<Out, In> {
    outbound: Link<Out>,
    inbound: Link<In>,
}

impl<Out, In> Transport<Out, In> for End<Out, In> {
    fn poll_ready(&mut self) -> Poll<Result<(), TransportError>> {
        if self.outbound.borrow().closed {
            Poll::Ready(Err(TransportError { detail: "peer is gone".to_string() }))
        } else {
            Poll::Ready(Ok(()))
        }
    }

    fn start_send(&mut self, item: Out) -> Result<(), TransportError> {
        self.outbound.borrow_mut().frames.push_back(item);
        Ok(())
    }

    fn poll_flush(&mut self) -> Poll<Result<(), TransportError>> {
        Poll::Ready(Ok(()))
    }

    fn poll_next(&mut self) -> Poll<Option<Result<In, TransportError>>> {
        let mut pipe = self.inbound.borrow_mut();
        match pipe.frames.pop_front() {
            Some(frame) => Poll::Ready(Some(Ok(frame))),
            None if pipe.closed => Poll::Ready(None),
            None => Poll::Pending,
        }
    }
}

type ClientEnd = End<ClientMessage<ServiceRequest>, Response<ServiceResponse>>;
type ServerEnd = End<Response<ServiceResponse>, ClientMessage<ServiceRequest>>;
/// The sending half of a response slot: it names the call and notes when it is dropped.
struct Slot {
    call: usize,
    closed: Rc<RefCell<Vec<bool>>>,
}

impl Drop for Slot {
    fn drop(&mut self) {
        self.closed.borrow_mut()[self.call] = true;
    }
}

type Dispatch = RequestDispatch<ServiceRequest, ServiceResponse, Slot, ClientEnd>;
type Server = BaseChannel<ServiceRequest, ServiceResponse, u64, ServerEnd>;

const NOW: Timestamp = Timestamp { nanos: 1_000_000 };

/// A client, a server, and the calls that wait for their responses.
struct World {
    channel: Channel<ServiceRequest, ServiceResponse>,
    dispatch: Dispatch,
    server: Option<Server>,
    to_server: Link<ClientMessage<ServiceRequest>>,
    to_client: Link<Response<ServiceResponse>>,
    /// The responses that have reached the slot of each call.
    slots: Vec<Option<Response<ServiceResponse>>>,
    /// Whether the sending half of the slot of each call is gone.
    closed: Rc<RefCell<Vec<bool>>>,
    /// The abort handles that were fired, by request.
    aborted: Vec<u64>,
    dispatch_done: bool,
}

fn unbounded() -> World {
    let to_server = link();
    let to_client = link();
    let client = channel::new(
        Config::default(),
        End { outbound: to_server.clone(), inbound: to_client.clone() },
    );
    let server = BaseChannel::new(
        server::Config::default(),
        End { outbound: to_client.clone(), inbound: to_server.clone() },
    );
    World {
        channel: client.client,
        dispatch: client.dispatch,
        server: Some(server),
        to_server,
        to_client,
        slots: Vec::new(),
        closed: Rc::new(RefCell::new(Vec::new())),
        aborted: Vec::new(),
        dispatch_done: false,
    }
}

/// What the server does for a request that returns at once.
fn serve(request: ServiceRequest) -> Option<HandlerOutcome<ServiceResponse>> {
    match request {
        ServiceRequest::Add { x, y } => Some(HandlerOutcome::Completed(ServiceResponse::Add(x + y))),
        ServiceRequest::Hey { name } => Some(HandlerOutcome::Completed(ServiceResponse::Hey(format!("Hey, {}.", name)))),
        // This handler never returns by itself.
        ServiceRequest::Loop => None,
    }
}

impl World {
    fn call(&mut self, channel: &Channel<ServiceRequest, ServiceResponse>, ctx: context::Context, request: ServiceRequest) -> (usize, DispatchResponse) {
        let slot = self.slots.len();
        self.slots.push(None);
        self.closed.borrow_mut().push(false);
        let (request, response) = channel.send(ctx, request, Slot { call: slot, closed: self.closed.clone() });
        assert!(self.dispatch.stage(request).is_ok());
        (slot, response)
    }

    /// Drives both sides until neither can do anything more.
    fn run(&mut self, now: Timestamp) {
        loop {
            let mut progress = false;
            if !self.dispatch_done {
                match self.dispatch.poll(now) {
                    Poll::Ready(Some(Ok(()))) => progress = true,
                    Poll::Ready(None) => self.dispatch_done = true,
                    Poll::Ready(Some(Err(e))) => panic!("{:?}", e),
                    Poll::Pending => {}
                }
                for completion in self.dispatch.take_completed() {
                    let call = completion.response_completion.call;
                    assert!(self.slots[call].is_none());
                    assert!(!self.closed.borrow()[call]);
                    self.slots[call] = Some(completion.response);
                    progress = true;
                }
            }
            if let Some(server) = self.server.as_mut() {
                match server.poll_next() {
                    Poll::Ready(Some(Ok(Incoming::Request(request)))) => {
                        progress = true;
                        assert_eq!(server.start_request(request.id, request.context.deadline, request.id), Ok(()));
                        if let Some(outcome) = serve(request.message) {
                            assert_eq!(server.respond(response_for(request.id, outcome)), Ok(Responded::Sent));
                        }
                    }
                    Poll::Ready(Some(Ok(_))) => progress = true,
                    Poll::Ready(Some(Err(e))) => panic!("{:?}", e),
                    Poll::Ready(None) | Poll::Pending => {}
                }
                self.aborted.extend(server.take_aborted());
            }
            if !progress {
                break;
            }
        }
    }

    fn drop_server(&mut self) {
        let server = self.server.take().unwrap();
        self.aborted.extend(server.shutdown());
        self.to_client.borrow_mut().closed = true;
    }

    /// What the caller of `slot` sees at `now`. A slot whose sending half is gone without a value is closed.
    fn resolve(&mut self, slot: usize, handle: &mut DispatchResponse, now: Timestamp) -> Poll<Result<ServiceResponse, CallError>> {
        match self.slots[slot].take() {
            Some(response) => handle.poll(Poll::Ready(Some(response)), now),
            None if self.closed.borrow()[slot] => handle.poll(Poll::Ready(None), now),
            None => handle.poll(Poll::Pending, now),
        }
    }

    /// Gives the dispatcher up, as the end of its task does: the slots it holds are dropped.
    fn drop_dispatch(&mut self) {
        let gone = channel::new(
            Config::default(),
            End { outbound: self.to_server.clone(), inbound: self.to_client.clone() },
        );
        self.dispatch = gone.dispatch;
        self.dispatch_done = true;
    }
}

#[test]
fn sequential() {
    let mut world = unbounded();
    let channel = world.channel.clone();

    let (slot, mut add) = world.call(&channel, context::current(NOW).unwrap(), ServiceRequest::Add { x: 1, y: 2 });
    world.run(NOW);
    assert_eq!(world.resolve(slot, &mut add, NOW), Poll::Ready(Ok(ServiceResponse::Add(3))));

    let (slot, mut hey) = world.call(&channel, context::current(NOW).unwrap(), ServiceRequest::Hey { name: "Tim".into() });
    world.run(NOW);
    assert_eq!(world.resolve(slot, &mut hey, NOW), Poll::Ready(Ok(ServiceResponse::Hey("Hey, Tim.".to_string()))));
}

#[test]
fn dropped_channel_aborts_in_flight_requests() {
    let mut world = unbounded();
    let channel = world.channel.clone();

    // A long-lived request: it ends in an error when the server drops the connection.
    let mut ctx = context::current(NOW).unwrap();
    ctx.deadline = NOW.after(60 * 60 * 1_000_000_000);
    let (slot, mut response) = world.call(&channel, ctx, ServiceRequest::Loop);

    // Reading the request registers its handler with the channel.
    world.run(NOW);
    assert_eq!(world.server.as_ref().unwrap().in_flight_requests(), 1);
    assert!(world.aborted.is_empty());
    assert_eq!(world.resolve(slot, &mut response, NOW), Poll::Pending);

    // Dropping the channel aborts the handlers that run.
    world.drop_server();
    assert_eq!(world.aborted, vec![0]);

    // The client learns that the response is lost.
    world.run(NOW);
    assert!(world.dispatch_done);
    assert_eq!(world.resolve(slot, &mut response, NOW), Poll::Pending);
    world.drop_dispatch();
    assert_eq!(world.resolve(slot, &mut response, NOW), Poll::Ready(Err(CallError::ResponseLost)));
}

#[test]
fn concurrent() {
    let mut world = unbounded();

    let c = world.channel.clone();
    let (slot1, mut req1) = world.call(&c, context::current(NOW).unwrap(), ServiceRequest::Add { x: 1, y: 2 });

    let c = world.channel.clone();
    let (slot2, mut req2) = world.call(&c, context::current(NOW).unwrap(), ServiceRequest::Add { x: 3, y: 4 });

    let c = world.channel.clone();
    let (slot3, mut req3) = world.call(&c, context::current(NOW).unwrap(), ServiceRequest::Hey { name: "Tim".to_string() });

    world.run(NOW);
    assert_eq!(world.resolve(slot1, &mut req1, NOW), Poll::Ready(Ok(ServiceResponse::Add(3))));
    assert_eq!(world.resolve(slot2, &mut req2, NOW), Poll::Ready(Ok(ServiceResponse::Add(7))));
    assert_eq!(world.resolve(slot3, &mut req3, NOW), Poll::Ready(Ok(ServiceResponse::Hey("Hey, Tim.".to_string()))));
}

#[test]
fn concurrent_join() {
    let mut world = unbounded();

    let c = world.channel.clone();
    let (slot1, mut req1) = world.call(&c, context::current(NOW).unwrap(), ServiceRequest::Add { x: 1, y: 2 });

    let c = world.channel.clone();
    let (slot2, mut req2) = world.call(&c, context::current(NOW).unwrap(), ServiceRequest::Add { x: 3, y: 4 });

    let c = world.channel.clone();
    let (slot3, mut req3) = world.call(&c, context::current(NOW).unwrap(), ServiceRequest::Hey { name: "Tim".to_string() });

    world.run(NOW);
    // The responses are taken in an order other than that of the calls.
    let resp3 = world.resolve(slot3, &mut req3, NOW);
    let resp1 = world.resolve(slot1, &mut req1, NOW);
    let resp2 = world.resolve(slot2, &mut req2, NOW);
    assert_eq!(resp1, Poll::Ready(Ok(ServiceResponse::Add(3))));
    assert_eq!(resp2, Poll::Ready(Ok(ServiceResponse::Add(7))));
    assert_eq!(resp3, Poll::Ready(Ok(ServiceResponse::Hey("Hey, Tim.".to_string()))));
}

#[test]
fn concurrent_join_all() {
    let mut world = unbounded();

    let c1 = world.channel.clone();
    let c2 = world.channel.clone();

    let (slot1, req1) = world.call(&c1, context::current(NOW).unwrap(), ServiceRequest::Add { x: 1, y: 2 });
    let (slot2, req2) = world.call(&c2, context::current(NOW).unwrap(), ServiceRequest::Add { x: 3, y: 4 });

    world.run(NOW);
    let responses: Vec<_> =
        vec![(slot1, req1), (slot2, req2)].into_iter().map(|(slot, mut req)| world.resolve(slot, &mut req, NOW)).collect();
    assert_eq!(responses[0], Poll::Ready(Ok(ServiceResponse::Add(3))));
    assert_eq!(responses[1], Poll::Ready(Ok(ServiceResponse::Add(7))));
}

#[test]
fn responses_in_reverse_order_reach_their_callers() {
    let mut world = unbounded();
    let channel = world.channel.clone();
    let (slot1, mut req1) = world.call(&channel, context::current(NOW).unwrap(), ServiceRequest::Loop);
    let (slot2, mut req2) = world.call(&channel, context::current(NOW).unwrap(), ServiceRequest::Loop);
    world.run(NOW);
    // The handlers finish in the reverse order of the requests.
    let server = world.server.as_mut().unwrap();
    assert_eq!(server.respond(response_for(1, HandlerOutcome::Completed(ServiceResponse::Add(11)))), Ok(Responded::Sent));
    assert_eq!(server.respond(response_for(0, HandlerOutcome::Completed(ServiceResponse::Add(10)))), Ok(Responded::Sent));
    world.run(NOW);
    assert_eq!(world.resolve(slot1, &mut req1, NOW), Poll::Ready(Ok(ServiceResponse::Add(10))));
    assert_eq!(world.resolve(slot2, &mut req2, NOW), Poll::Ready(Ok(ServiceResponse::Add(11))));
}

#[test]
fn dropped_response_aborts_handler() {
    let mut world = unbounded();
    let channel = world.channel.clone();
    let (slot, response) = world.call(&channel, context::current(NOW).unwrap(), ServiceRequest::Loop);
    world.run(NOW);
    assert_eq!(world.server.as_ref().unwrap().in_flight_requests(), 1);

    // The caller drops the handle: the server sees the cancellation and aborts the handler.
    world.dispatch.drop_response(response);
    world.run(NOW);
    assert_eq!(world.aborted, vec![0]);
    assert_eq!(world.server.as_ref().unwrap().in_flight_requests(), 0);
    assert!(world.dispatch.in_flight_requests().is_empty());
    assert!(world.slots[slot].is_none());
    assert!(world.closed.borrow()[slot]);
    assert!(world.to_client.borrow().frames.is_empty());
}

#[test]
fn deadline_expiry_resolves_the_caller_without_a_response() {
    let mut world = unbounded();
    let channel = world.channel.clone();
    let mut ctx = context::current(NOW).unwrap();
    ctx.deadline = NOW.after(50_000_000);
    let (slot, mut response) = world.call(&channel, ctx, ServiceRequest::Loop);
    world.run(NOW);
    assert_eq!(world.resolve(slot, &mut response, NOW), Poll::Pending);
    world.run(NOW.after(49_999_999));
    assert_eq!(world.resolve(slot, &mut response, NOW.after(49_999_999)), Poll::Pending);
    world.run(NOW.after(50_000_000));
    assert_eq!(
        world.resolve(slot, &mut response, NOW.after(50_000_000)),
        Poll::Ready(Err(CallError::DeadlineExceeded))
    );
    // The server was not told; it enforces the deadline by itself.
    assert_eq!(world.to_server.borrow().frames.len(), 0);
    assert!(world.aborted.is_empty());
    let server = world.server.as_mut().unwrap();
    assert_eq!(server.poll_expired(NOW.after(50_000_000)), Poll::Ready(Some(0)));
    assert_eq!(server.take_aborted(), vec![0]);
}

#[test]
fn cancel_before_send_reaches_neither_table_nor_wire() {
    let mut world = unbounded();
    let channel = world.channel.clone();
    let (_slot, response) = world.call(&channel, context::current(NOW).unwrap(), ServiceRequest::Add { x: 1, y: 2 });
    world.dispatch.drop_response(response);
    // Hold the server back so that what the client writes can be seen.
    let server = world.server.take();
    world.run(NOW);
    assert!(world.dispatch.in_flight_requests().is_empty());
    assert!(world.to_server.borrow().frames.is_empty());
    world.server = server;
    world.run(NOW);
    assert_eq!(world.server.as_ref().unwrap().in_flight_requests(), 0);
}
