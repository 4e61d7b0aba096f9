//! The bounded first-in first-out channel that carries admitted
//! transactions to the batch processor.

use vstd::prelude::*;
use crate::transaction::Transaction;

verus! {

/// Both ends of a bounded crossbeam channel of transactions. The two
/// handles share one buffer, so they are held together and the buffer's
/// contents are named as a whole.
#[verifier::external_body]
pub struct TxQueue {
    sender: crossbeam_channel::Sender<Transaction>,
    receiver: crossbeam_channel::Receiver<Transaction>,
}

/// The transactions waiting in the channel, oldest first.
pub uninterp spec fn queued(q: TxQueue) -> Seq<Transaction>;

/// The number of transactions the channel was made to hold.
pub uninterp spec fn queue_capacity(q: TxQueue) -> nat;

impl TxQueue {
    /// Relies on crossbeam_channel's `bounded`: an empty channel holding at
    /// most `capacity` messages (a zero capacity would make a rendezvous
    /// channel, and is left out).
    #[verifier::external_body]
    pub(crate) fn bounded(capacity: usize) -> (r: TxQueue)
        requires
            0 < capacity <= 100_000,
        ensures
            queued(r) == Seq::<Transaction>::empty(),
            queue_capacity(r) == capacity,
    {
        let (sender, receiver) = crossbeam_channel::bounded(capacity);
        TxQueue { sender, receiver }
    }

    /// Relies on crossbeam_channel's `Sender::try_send`: appends `tx` unless
    /// the channel is full, in which case `tx` comes back. The receiver is
    /// held here, so the channel is never disconnected.
    #[verifier::external_body]
    pub(crate) fn try_push(&mut self, tx: Transaction) -> (r: Result<(), Transaction>)
        ensures
            queue_capacity(*final(self)) == queue_capacity(*old(self)),
            queued(*old(self)).len() < queue_capacity(*old(self)) ==> r is Ok && queued(*final(self))
                == queued(*old(self)).push(tx),
            queued(*old(self)).len() >= queue_capacity(*old(self)) ==> r is Err && r->Err_0 == tx
                && queued(*final(self)) == queued(*old(self)),
    {
        self.sender.try_send(tx).map_err(|e| e.into_inner())
    }

    /// Relies on crossbeam_channel's `Receiver::len`: the number of messages
    /// waiting.
    #[verifier::external_body]
    pub(crate) fn len(&self) -> (r: usize)
        ensures
            r == queued(*self).len(),
    {
        self.receiver.len()
    }

    /// Relies on crossbeam_channel's `Receiver::try_recv`: removes and
    /// returns the oldest message, or nothing when the channel is empty.
    #[verifier::external_body]
    pub(crate) fn try_pop(&mut self) -> (r: Option<Transaction>)
        ensures
            queue_capacity(*final(self)) == queue_capacity(*old(self)),
            queued(*old(self)).len() == 0 ==> r is None && queued(*final(self)) == queued(*old(self)),
            queued(*old(self)).len() > 0 ==> r == Some(queued(*old(self))[0]) && queued(*final(self))
                == queued(*old(self)).drop_first(),
    {
        self.receiver.try_recv().ok()
    }
}

} // verus!
