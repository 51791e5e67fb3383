use std::collections::VecDeque;

use tarpc::client::channel::{cancellations, Channel};
use tarpc::client::pending_requests::{PendingRequests, PushError, Staged};
use tarpc::context::{Context, Timestamp};
use tarpc::error::TransportError;
use tarpc::poll::Poll;
use tarpc::trace;
use tarpc::transport::{Fuse, Transport};

/// A transport that plays back what it was told to answer and counts how often it is asked.
#[derive(Default)]
struct Script {
    ready: VecDeque<Poll<Result<(), TransportError>>>,
    flush: VecDeque<Poll<Result<(), TransportError>>>,
    next: VecDeque<Poll<Option<Result<u8, TransportError>>>>,
    sent: Vec<u8>,
    polls_of_next: usize,
    polls_of_ready: usize,
}

impl Transport<u8, u8> for &mut Script {
    fn poll_ready(&mut self) -> Poll<Result<(), TransportError>> {
        self.polls_of_ready += 1;
        self.ready.pop_front().unwrap_or(Poll::Pending)
    }

    fn start_send(&mut self, item: u8) -> Result<(), TransportError> {
        if item == 0 {
            return Err(TransportError { detail: "zero".to_string() });
        }
        self.sent.push(item);
        Ok(())
    }

    fn poll_flush(&mut self) -> Poll<Result<(), TransportError>> {
        self.flush.pop_front().unwrap_or(Poll::Pending)
    }

    fn poll_next(&mut self) -> Poll<Option<Result<u8, TransportError>>> {
        self.polls_of_next += 1;
        self.next.pop_front().unwrap_or(Poll::Pending)
    }
}

fn broken() -> TransportError {
    TransportError { detail: "broken".to_string() }
}

#[test]
fn fuse_never_polls_past_the_end() {
    let mut script = Script::default();
    script.next.extend([Poll::Ready(Some(Ok(1))), Poll::Pending, Poll::Ready(None), Poll::Ready(Some(Ok(2)))]);
    {
        let mut fuse = Fuse::new(&mut script);
        assert!(!fuse.is_done());
        assert_eq!(fuse.poll_next(), Poll::Ready(Some(Ok(1))));
        assert_eq!(fuse.poll_next(), Poll::Pending);
        assert!(!fuse.is_done());
        assert_eq!(fuse.poll_next(), Poll::Ready(None));
        assert!(fuse.is_done());
        assert_eq!(fuse.poll_next(), Poll::Ready(None));
        assert_eq!(fuse.poll_next(), Poll::Ready(None));
    }
    assert_eq!(script.polls_of_next, 3);
}

#[test]
fn fuse_passes_read_errors_on_without_ending() {
    let mut script = Script::default();
    script.next.extend([Poll::Ready(Some(Err(broken()))), Poll::Ready(Some(Ok(2)))]);
    let mut fuse = Fuse::new(&mut script);
    assert_eq!(fuse.poll_next(), Poll::Ready(Some(Err(broken()))));
    assert!(!fuse.is_done());
    assert_eq!(fuse.poll_next(), Poll::Ready(Some(Ok(2))));
}

#[test]
fn fuse_tracks_readiness() {
    let mut script = Script::default();
    script.ready.extend([Poll::Pending, Poll::Ready(Ok(())), Poll::Ready(Err(broken())), Poll::Ready(Ok(()))]);
    script.flush.extend([Poll::Ready(Ok(()))]);
    {
        let mut fuse = Fuse::new(&mut script);
        assert!(!fuse.is_writable());
        assert_eq!(fuse.poll_ready(), Poll::Pending);
        assert!(!fuse.is_writable());
        assert_eq!(fuse.poll_ready(), Poll::Ready(Ok(())));
        assert!(fuse.is_writable());
        assert_eq!(fuse.start_send(7), Ok(()));
        // Readiness is used up by the frame.
        assert!(!fuse.is_writable());
        assert_eq!(fuse.poll_ready(), Poll::Ready(Err(broken())));
        assert!(!fuse.is_writable());
        assert_eq!(fuse.poll_ready(), Poll::Ready(Ok(())));
        assert!(fuse.is_writable());
        // So it is by a flush.
        assert_eq!(fuse.poll_flush(), Poll::Ready(Ok(())));
        assert!(!fuse.is_writable());
    }
    assert_eq!(script.sent, vec![7]);
}

#[test]
fn fuse_reports_a_refused_frame() {
    let mut script = Script::default();
    script.ready.extend([Poll::Ready(Ok(()))]);
    {
        let mut fuse = Fuse::new(&mut script);
        assert_eq!(fuse.poll_ready(), Poll::Ready(Ok(())));
        assert_eq!(fuse.start_send(0), Err(TransportError { detail: "zero".to_string() }));
        assert!(!fuse.is_writable());
    }
    assert!(script.sent.is_empty());
}

#[test]
fn poll_writable_flushes_once_and_asks_again() {
    // Ready at once: no flush.
    let mut script = Script::default();
    script.ready.extend([Poll::Ready(Ok(()))]);
    assert_eq!(Fuse::new(&mut script).poll_writable(), Poll::Ready(Ok(())));
    assert_eq!(script.polls_of_ready, 1);

    // Not ready, flushed, ready.
    let mut script = Script::default();
    script.ready.extend([Poll::Pending, Poll::Ready(Ok(()))]);
    script.flush.extend([Poll::Ready(Ok(()))]);
    {
        let mut fuse = Fuse::new(&mut script);
        assert_eq!(fuse.poll_writable(), Poll::Ready(Ok(())));
        assert!(fuse.is_writable());
    }
    assert_eq!(script.polls_of_ready, 2);

    // Not ready and the flush is not through.
    let mut script = Script::default();
    script.ready.extend([Poll::Pending, Poll::Ready(Ok(()))]);
    script.flush.extend([Poll::Pending]);
    assert_eq!(Fuse::new(&mut script).poll_writable(), Poll::Pending);
    assert_eq!(script.polls_of_ready, 1);

    // Not ready and the flush fails.
    let mut script = Script::default();
    script.ready.extend([Poll::Pending]);
    script.flush.extend([Poll::Ready(Err(broken()))]);
    assert_eq!(Fuse::new(&mut script).poll_writable(), Poll::Ready(Err(broken())));

    // Not ready, flushed, still not ready: asked twice and no more.
    let mut script = Script::default();
    script.ready.extend([Poll::Pending, Poll::Pending, Poll::Ready(Ok(()))]);
    script.flush.extend([Poll::Ready(Ok(()))]);
    {
        let mut fuse = Fuse::new(&mut script);
        assert_eq!(fuse.poll_writable(), Poll::Pending);
        assert!(!fuse.is_writable());
    }
    assert_eq!(script.polls_of_ready, 2);
}

#[test]
fn cancellations_are_first_in_first_out() {
    let mut canceled = cancellations();
    assert_eq!(canceled.poll_next(), Poll::Pending);
    canceled.cancel(3);
    canceled.cancel(1);
    canceled.cancel(3);
    assert_eq!(canceled.poll_next(), Poll::Ready(Some(3)));
    assert_eq!(canceled.poll_next(), Poll::Ready(Some(1)));
    canceled.close();
    assert_eq!(canceled.poll_next(), Poll::Ready(Some(3)));
    assert_eq!(canceled.poll_next(), Poll::Ready(None));
    canceled.cancel(9);
    assert_eq!(canceled.poll_next(), Poll::Ready(None));
}

#[test]
fn the_cancellation_queue_has_no_bound() {
    let mut canceled = cancellations();
    for id in 0..10_000 {
        canceled.cancel(id);
    }
    for id in 0..10_000 {
        assert_eq!(canceled.poll_next(), Poll::Ready(Some(id)));
    }
    assert_eq!(canceled.poll_next(), Poll::Pending);
}

fn staged(id: u64) -> tarpc::client::channel::DispatchRequest<&'static str, u8> {
    let ctx = Context { deadline: Timestamp { nanos: 1 }, trace_context: trace::Context::root(1, 1) };
    Channel::<&'static str, ()>::send_with(ctx, "payload", 0u8, id, 2).0
}

#[test]
fn pending_requests_are_bounded_and_first_in_first_out() {
    let mut pending: PendingRequests<&'static str, u8> = PendingRequests::new(2);
    assert_eq!(pending.len(), 0);
    assert_eq!(pending.poll_recv(), Poll::Pending);
    assert_eq!(pending.push(staged(1)), Ok(()));
    assert_eq!(pending.push(staged(2)), Ok(()));
    assert_eq!(pending.push(staged(3)), Err(PushError::Full(staged(3))));
    assert_eq!(pending.len(), 2);
    assert_eq!(pending.poll_recv(), Poll::Ready(Some(Staged { request: staged(1), response_closed: false })));
    assert_eq!(pending.push(staged(4)), Ok(()));
    assert!(!pending.is_closed());
    pending.close();
    assert!(pending.is_closed());
    assert_eq!(pending.push(staged(5)), Err(PushError::Closed(staged(5))));
    assert_eq!(pending.poll_recv(), Poll::Ready(Some(Staged { request: staged(2), response_closed: false })));
    assert_eq!(pending.poll_recv(), Poll::Ready(Some(Staged { request: staged(4), response_closed: false })));
    assert_eq!(pending.poll_recv(), Poll::Ready(None));
}

#[test]
fn a_bound_of_zero_stages_nothing() {
    let mut pending: PendingRequests<&'static str, u8> = PendingRequests::new(0);
    assert_eq!(pending.push(staged(1)), Err(PushError::Full(staged(1))));
}

#[test]
fn closing_a_slot_marks_every_request_of_that_id() {
    let mut pending: PendingRequests<&'static str, u8> = PendingRequests::new(10);
    for id in [1, 2, 1, 3] {
        pending.push(staged(id)).unwrap();
    }
    pending.close_response(1);
    pending.close_response(9);
    let flags: Vec<(u64, bool)> = (0..4)
        .map(|_| match pending.poll_recv() {
            Poll::Ready(Some(staged)) => (staged.request.request_id, staged.response_closed),
            other => panic!("{:?}", other),
        })
        .collect();
    assert_eq!(flags, vec![(1, true), (2, false), (1, true), (3, false)]);
}

#[test]
fn trace_identifiers_are_joined_from_two_halves() {
    assert_eq!(trace::trace_id(0, 0), 0);
    assert_eq!(trace::trace_id(1, 2), (1u128 << 64) | 2);
    assert_eq!(trace::trace_id(u64::MAX, u64::MAX), u128::MAX);
    assert_eq!(trace::trace_id(0xdead_beef, 0x1234), 0x0000_0000_dead_beef_0000_0000_0000_1234);
}
