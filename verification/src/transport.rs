//! The channel that carries the frames, and the runtime's record of how it
//! has been used.

use vstd::prelude::*;
use crate::error::TransportError;
use crate::poll::Poll;

verus! {

/// A full-duplex, ordered channel of frames: `SinkItem` out, `Item` in.
///
/// The runtime assumes nothing of an implementation. What it expects is this:
/// frames reach the peer in the order of the successful `start_send` calls; a
/// transport that is not ready makes progress when flushed; any error is fatal.
pub trait Transport<SinkItem, Item> {
    /// Asks whether one more outbound frame can be accepted.
    fn poll_ready(&mut self) -> Poll<Result<(), TransportError>>;

    /// Hands over one frame. To be called only after `poll_ready` has reported
    /// readiness.
    fn start_send(&mut self, item: SinkItem) -> Result<(), TransportError>;

    /// Pushes buffered frames toward the wire. Ready once the buffer is drained.
    fn poll_flush(&mut self) -> Poll<Result<(), TransportError>>;

    /// Yields the next inbound frame; `Ready(None)` at the end of the stream.
    fn poll_next(&mut self) -> Poll<Option<Result<Item, TransportError>>>;
}

/// One thing asked of a transport, and what it answered.
pub enum Exchange<SinkItem, Item> {
    /// `poll_ready` and its answer.
    Asked(Poll<Result<(), TransportError>>),
    /// `start_send` with the frame handed over, and its answer.
    Sent(SinkItem, Result<(), TransportError>),
    /// `poll_flush` and its answer.
    Flushed(Poll<Result<(), TransportError>>),
    /// `poll_next` and its answer.
    Read(Poll<Option<Result<Item, TransportError>>>),
}

/// What a run of exchanges came to: the answer, how many exchanges it took,
/// and whether they were the exchanges that were to be made.
pub struct Asked<T> {
    pub answer: T,
    pub asked: nat,
    pub valid: bool,
}

/// Whether `after` is `before` with more behind it.
pub open spec fn extends<T>(after: Seq<T>, before: Seq<T>) -> bool {
    before.len() <= after.len() && after.subrange(0, before.len() as int) == before
}

/// What `after` holds behind `before`.
pub open spec fn since<T>(after: Seq<T>, before: Seq<T>) -> Seq<T> {
    after.skip(before.len() as int)
}

/// What follows what, taken together.
pub proof fn lemma_since_chain<T>(first: Seq<T>, second: Seq<T>, third: Seq<T>)
    requires
        extends(second, first),
        extends(third, second),
    ensures
        extends(third, first),
        since(third, first) == since(second, first) + since(third, second),
        extends(since(third, first), since(second, first)),
        since(third, first).skip(since(second, first).len() as int) == since(third, second),
{
    assert(third.subrange(0, first.len() as int) =~= first) by {
        assert forall|i: int| 0 <= i < first.len() implies third[i] == first[i] by {
            assert(third.subrange(0, second.len() as int)[i] == second[i]);
            assert(second.subrange(0, first.len() as int)[i] == first[i]);
        }
    }
    assert(since(third, first) =~= since(second, first) + since(third, second)) by {
        assert forall|j: int| first.len() <= j < second.len() implies #[trigger] third[j] == second[j] by {
            assert(third.subrange(0, second.len() as int)[j] == second[j]);
        }
    }
    assert(since(third, first).subrange(0, since(second, first).len() as int) =~= since(second, first));
    assert(since(third, first).skip(since(second, first).len() as int) =~= since(third, second));
}

/// What asking a transport for room for one more frame comes to, read off
/// the exchanges: it is asked; if it is not ready it is flushed; and if the
/// flush is through it is asked once more.
pub open spec fn writable_step<SinkItem, Item>(answers: Seq<Exchange<SinkItem, Item>>) -> Asked<
    Poll<Result<(), TransportError>>,
> {
    let invalid = Asked { answer: Poll::Pending, asked: 0, valid: false };
    if answers.len() < 1 {
        invalid
    } else {
        match answers[0] {
            Exchange::Asked(Poll::Ready(answer)) => Asked { answer: Poll::Ready(answer), asked: 1, valid: true },
            Exchange::Asked(Poll::Pending) => if answers.len() < 2 {
                invalid
            } else {
                match answers[1] {
                    Exchange::Flushed(Poll::Pending) => Asked { answer: Poll::Pending, asked: 2, valid: true },
                    Exchange::Flushed(Poll::Ready(Err(e))) => Asked {
                        answer: Poll::Ready(Err(e)),
                        asked: 2,
                        valid: true,
                    },
                    Exchange::Flushed(Poll::Ready(Ok(_))) => if answers.len() < 3 {
                        invalid
                    } else {
                        match answers[2] {
                            Exchange::Asked(answer) => Asked { answer, asked: 3, valid: true },
                            _ => invalid,
                        }
                    },
                    _ => invalid,
                }
            },
            _ => invalid,
        }
    }
}

/// What asking for room comes to depends on the exchanges it made alone,
/// not on what follows them.
pub proof fn lemma_writable_step_prefix<SinkItem, Item>(
    answers: Seq<Exchange<SinkItem, Item>>,
    longer: Seq<Exchange<SinkItem, Item>>,
)
    requires
        writable_step(answers).valid,
        writable_step(answers).asked == answers.len(),
        extends(longer, answers),
    ensures
        writable_step(longer) == writable_step(answers),
{
    assert forall|i: int| 0 <= i < answers.len() implies longer[i] == answers[i] by {
        assert(longer.subrange(0, answers.len() as int)[i] == answers[i]);
    }
}

/// A transport together with what the runtime knows of it: whether the inbound
/// stream has ended, whether a frame may be handed over, and which frames have
/// been accepted.
///
/// Once the inbound stream has ended it is never polled again. A frame can be
/// handed over only while [`Fuse::writable`] holds, so whoever verifies against
/// this type calls `start_send` only after the transport has reported readiness.
pub struct Fuse<C, SinkItem, Item> {
    transport: C,
    done: bool,
    ready: bool,
    sent: Ghost<Seq<SinkItem>>,
    received: Ghost<Seq<Item>>,
    exchanges: Ghost<Seq<Exchange<SinkItem, Item>>>,
}

impl<SinkItem, Item, C: Transport<SinkItem, Item>> Fuse<C, SinkItem, Item> {
    /// The frames the transport has accepted, oldest first.
    pub closed spec fn sent(&self) -> Seq<SinkItem> {
        self.sent@
    }

    /// Whether the last thing asked of the outbound side was `poll_ready`, and
    /// the answer was that a frame can be accepted.
    pub closed spec fn writable(&self) -> bool {
        self.ready
    }

    /// The frames the transport has yielded, oldest first.
    pub closed spec fn received(&self) -> Seq<Item> {
        self.received@
    }

    /// Everything that was asked of the transport and what it answered,
    /// oldest first. Only the methods of this type add to it, each what it
    /// asked itself.
    pub closed spec fn exchanges(&self) -> Seq<Exchange<SinkItem, Item>> {
        self.exchanges@
    }

    /// Whether the inbound stream has ended.
    pub closed spec fn done(&self) -> bool {
        self.done
    }

    /// Wraps a transport of which nothing is known yet.
    pub fn new(transport: C) -> (fuse: Self)
        ensures
            fuse.sent() == Seq::<SinkItem>::empty(),
            fuse.received() == Seq::<Item>::empty(),
            fuse.exchanges() == Seq::<Exchange<SinkItem, Item>>::empty(),
            !fuse.writable(),
            !fuse.done(),
    {
        Fuse {
            transport,
            done: false,
            ready: false,
            sent: Ghost(Seq::empty()),
            received: Ghost(Seq::empty()),
            exchanges: Ghost(Seq::empty()),
        }
    }

    /// Whether the inbound stream has ended.
    pub fn is_done(&self) -> (done: bool)
        ensures
            done == self.done(),
    {
        self.done
    }

    /// Whether a frame may be handed over.
    pub fn is_writable(&self) -> (writable: bool)
        ensures
            writable == self.writable(),
    {
        self.ready
    }

    /// Asks the transport whether one more frame can be accepted.
    pub fn poll_ready(&mut self) -> (ready: Poll<Result<(), TransportError>>)
        ensures
            final(self).sent() == old(self).sent(),
            final(self).received() == old(self).received(),
            final(self).done() == old(self).done(),
            final(self).writable() == (ready matches Poll::Ready(Ok(_))),
            final(self).exchanges() == old(self).exchanges().push(Exchange::Asked(ready)),
    {
        let ready = self.transport.poll_ready();
        self.ready = match &ready {
            Poll::Ready(Ok(_)) => true,
            _ => false,
        };
        proof {
            self.exchanges@ = self.exchanges@.push(Exchange::Asked(ready));
        }
        ready
    }

    /// Hands one frame to the transport.
    pub fn start_send(&mut self, item: SinkItem) -> (result: Result<(), TransportError>)
        requires
            old(self).writable(),
        ensures
            final(self).received() == old(self).received(),
            final(self).done() == old(self).done(),
            !final(self).writable(),
            result is Ok ==> final(self).sent() == old(self).sent().push(item),
            result is Err ==> final(self).sent() == old(self).sent(),
            final(self).exchanges() == old(self).exchanges().push(Exchange::Sent(item, result)),
    {
        let ghost frame = item;
        self.ready = false;
        let result = self.transport.start_send(item);
        if result.is_ok() {
            proof {
                self.sent@ = self.sent@.push(frame);
            }
        }
        proof {
            self.exchanges@ = self.exchanges@.push(Exchange::Sent(frame, result));
        }
        result
    }

    /// Pushes buffered frames toward the wire.
    pub fn poll_flush(&mut self) -> (flushed: Poll<Result<(), TransportError>>)
        ensures
            final(self).sent() == old(self).sent(),
            final(self).received() == old(self).received(),
            final(self).done() == old(self).done(),
            !final(self).writable(),
            final(self).exchanges() == old(self).exchanges().push(Exchange::Flushed(flushed)),
    {
        self.ready = false;
        let flushed = self.transport.poll_flush();
        proof {
            self.exchanges@ = self.exchanges@.push(Exchange::Flushed(flushed));
        }
        flushed
    }

    /// Waits for the transport to accept one more frame: asks it, and if it is
    /// not ready, flushes it and asks once more.
    pub fn poll_writable(&mut self) -> (ready: Poll<Result<(), TransportError>>)
        ensures
            final(self).sent() == old(self).sent(),
            final(self).received() == old(self).received(),
            final(self).done() == old(self).done(),
            final(self).writable() == (ready matches Poll::Ready(Ok(_))),
            extends(final(self).exchanges(), old(self).exchanges()),
            writable_step(since(final(self).exchanges(), old(self).exchanges())) == (Asked {
                answer: ready,
                asked: since(final(self).exchanges(), old(self).exchanges()).len(),
                valid: true,
            }),
    {
        let ghost before = self.exchanges();
        let first = self.poll_ready();
        match first {
            Poll::Ready(ready) => {
                proof {
                    assert(self.exchanges().subrange(0, before.len() as int) =~= before);
                    assert(since(self.exchanges(), before) =~= seq![Exchange::Asked(first)]);
                }
                return Poll::Ready(ready);
            },
            Poll::Pending => {},
        }
        let flushed = self.poll_flush();
        match flushed {
            Poll::Ready(Ok(_)) => {},
            Poll::Ready(Err(e)) => {
                proof {
                    assert(self.exchanges().subrange(0, before.len() as int) =~= before);
                    assert(since(self.exchanges(), before) =~= seq![Exchange::Asked(first), Exchange::Flushed(flushed)]);
                }
                return Poll::Ready(Err(e));
            },
            Poll::Pending => {
                proof {
                    assert(self.exchanges().subrange(0, before.len() as int) =~= before);
                    assert(since(self.exchanges(), before) =~= seq![Exchange::Asked(first), Exchange::Flushed(flushed)]);
                }
                return Poll::Pending;
            },
        }
        let ready = self.poll_ready();
        proof {
            assert(self.exchanges().subrange(0, before.len() as int) =~= before);
            assert(since(self.exchanges(), before) =~= seq![
                Exchange::Asked(first),
                Exchange::Flushed(flushed),
                Exchange::Asked(ready),
            ]);
        }
        ready
    }

    /// Yields the next inbound frame. After the end of the stream the answer is
    /// `Ready(None)` for good, and the transport is left alone.
    pub fn poll_next(&mut self) -> (next: Poll<Option<Result<Item, TransportError>>>)
        ensures
            final(self).sent() == old(self).sent(),
            final(self).writable() == old(self).writable(),
            old(self).done() ==> next matches Poll::Ready(None),
            final(self).done() == (next matches Poll::Ready(None)),
            final(self).received() == match next {
                Poll::Ready(Some(Ok(frame))) => old(self).received().push(frame),
                _ => old(self).received(),
            },
            final(self).exchanges() == if old(self).done() {
                old(self).exchanges()
            } else {
                old(self).exchanges().push(Exchange::Read(next))
            },
    {
        if self.done {
            return Poll::Ready(None);
        }
        let next = self.transport.poll_next();
        proof {
            self.exchanges@ = self.exchanges@.push(Exchange::Read(next));
        }
        match &next {
            Poll::Ready(None) => {
                self.done = true;
            },
            Poll::Ready(Some(Ok(frame))) => {
                proof {
                    self.received@ = self.received@.push(*frame);
                }
            },
            _ => {},
        }
        next
    }
}

} // verus!
