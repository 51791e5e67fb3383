use futures::future::{pending, AbortHandle, Abortable};
use tarpc::context::Timestamp;
use tarpc::error::TransportError;
use tarpc::message::{ClientMessage, Response};
use tarpc::poll::Poll;
use tarpc::server::abort::Fired;
use tarpc::server::{BaseChannel, Config};
use tarpc::trace;
use tarpc::transport::Transport;

/// A transport that plays back the frames it was given.
struct Inbox(Vec<ClientMessage<u8>>);

impl Transport<Response<u8>, ClientMessage<u8>> for Inbox {
    fn poll_ready(&mut self) -> Poll<Result<(), TransportError>> {
        Poll::Ready(Ok(()))
    }

    fn start_send(&mut self, _item: Response<u8>) -> Result<(), TransportError> {
        Ok(())
    }

    fn poll_flush(&mut self) -> Poll<Result<(), TransportError>> {
        Poll::Ready(Ok(()))
    }

    fn poll_next(&mut self) -> Poll<Option<Result<ClientMessage<u8>, TransportError>>> {
        if self.0.is_empty() {
            Poll::Pending
        } else {
            Poll::Ready(Some(Ok(self.0.remove(0))))
        }
    }
}

type Channel = BaseChannel<u8, u8, AbortHandle, Inbox>;

/// A handler that never returns by itself, and the handle that stops it.
fn idle_handler() -> (AbortHandle, Abortable<futures::future::Pending<()>>) {
    let (handle, registration) = AbortHandle::new_pair();
    (handle, Abortable::new(pending(), registration))
}

#[test]
fn a_cancelled_handler_observes_the_abort() {
    let cancel = ClientMessage::Cancel { trace_context: trace::Context::root(1, 1), request_id: 4 };
    let mut channel: Channel = BaseChannel::new(Config::default(), Inbox(vec![cancel]));
    let (handle, handler) = idle_handler();
    let (other_handle, other_handler) = idle_handler();
    channel.start_request(4, Timestamp { nanos: 10 }, handle).unwrap();
    channel.start_request(5, Timestamp { nanos: 10 }, other_handle).unwrap();
    assert!(channel.poll_next().is_ready());
    assert!(!handler.is_aborted());
    assert_eq!(channel.fire(&mut Fired::new()), 1);
    assert!(handler.is_aborted());
    assert!(!other_handler.is_aborted());
    assert_eq!(channel.fire(&mut Fired::new()), 0);
}

#[test]
fn giving_the_channel_up_aborts_every_handler() {
    let mut channel: Channel = BaseChannel::new(Config::default(), Inbox(vec![]));
    let handlers: Vec<_> = (0..5u64)
        .map(|id| {
            let (handle, handler) = idle_handler();
            channel.start_request(id, Timestamp { nanos: 10 }, handle).unwrap();
            handler
        })
        .collect();
    channel.abort_all();
    assert!(handlers.iter().all(|handler| !handler.is_aborted()));
    assert_eq!(channel.fire(&mut Fired::new()), 5);
    assert!(handlers.iter().all(|handler| handler.is_aborted()));
    assert_eq!(channel.in_flight_requests(), 0);
}

#[test]
fn an_expired_handler_observes_the_abort() {
    let mut channel: Channel = BaseChannel::new(Config::default(), Inbox(vec![]));
    let (handle, handler) = idle_handler();
    channel.start_request(1, Timestamp { nanos: 10 }, handle).unwrap();
    assert_eq!(channel.poll_expired(Timestamp { nanos: 9 }), Poll::Pending);
    assert_eq!(channel.fire(&mut Fired::new()), 0);
    assert_eq!(channel.poll_expired(Timestamp { nanos: 10 }), Poll::Ready(Some(1)));
    assert_eq!(channel.fire(&mut Fired::new()), 1);
    assert!(handler.is_aborted());
}
