//! A server channel whose handlers are stopped through the abort handles of
//! `futures`.

use vstd::prelude::*;
use futures::future::AbortHandle;
use crate::message::{ClientMessage, Response};
use crate::server::abort::Fired;
use crate::server::{BaseChannel, ChannelState};
use crate::transport::Transport;

verus! {

impl<Req, Resp, T: Transport<Response<Resp>, ClientMessage<Req>>> BaseChannel<Req, Resp, AbortHandle, T> {
    /// Fires every abort handle that is due, oldest first, notes each in
    /// `record`, and returns how many there were. The handlers behind them
    /// observe the cancellation when they are polled next.
    pub fn fire(&mut self, record: &mut Fired) -> (fired: usize)
        ensures
            fired == old(self)@.aborted.len(),
            final(record).handles() == old(record).handles() + old(self)@.aborted,
            final(self)@ == (ChannelState { aborted: Seq::empty(), ..old(self)@ }),
            final(self).exchanges() == old(self).exchanges(),
            old(self)@.within_limit() ==> final(self)@.within_limit(),
    {
        let aborted = self.take_aborted();
        let mut index: usize = 0;
        proof {
            assert(record.handles() + aborted@.subrange(0, 0) =~= record.handles());
        }
        while index < aborted.len()
            invariant
                index <= aborted@.len(),
                record.handles() == old(record).handles() + aborted@.subrange(0, index as int),
            decreases aborted@.len() - index,
        {
            record.abort(&aborted[index]);
            proof {
                assert(aborted@.subrange(0, index + 1) =~= aborted@.subrange(0, index as int).push(aborted@[index as int]));
                assert(record.handles() =~= old(record).handles() + aborted@.subrange(0, index + 1));
            }
            index += 1;
        }
        proof {
            assert(aborted@.subrange(0, index as int) =~= aborted@);
        }
        index
    }
}

} // verus!
