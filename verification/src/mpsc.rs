//! The bounded channel the upload pipeline's stages talk through: a queue
//! of at most `size` values and a count of live senders. Senders wait while
//! it is full; the receiver waits while it is empty and senders remain.

use vstd::prelude::*;

verus! {

/// The state shared by the senders and the receiver.
pub struct Channel<T> {
    pub size: usize,
    pub tx_count: usize,
    pub queue: Vec<T>,
}

/// What a receive attempt finds.
pub enum RecvPoll<T> {
    /// The oldest value.
    Item(T),
    /// Empty, and no sender is left.
    Closed,
    /// Empty; a sender may still send.
    Pending,
}

impl<T> Channel<T> {
    /// A channel holding at most `size` values, with one sender.
    pub fn channel(size: usize) -> (r: Channel<T>)
        ensures
            r.size == size,
            r.tx_count == 1,
            r.queue@.len() == 0,
    {
        Channel { size, tx_count: 1, queue: Vec::new() }
    }

    /// Queues `value` unless the channel is full, in which case the value
    /// comes back and the sender must wait.
    pub fn try_send(&mut self, value: T) -> (r: Result<(), T>)
        ensures
            final(self).size == old(self).size,
            final(self).tx_count == old(self).tx_count,
            old(self).queue@.len() < old(self).size ==> r is Ok && final(self).queue@ == old(self).queue@.push(value),
            old(self).queue@.len() >= old(self).size ==> r == Err::<(), T>(value) && final(self).queue@ == old(
                self,
            ).queue@,
            old(self).queue@.len() <= old(self).size ==> final(self).queue@.len() <= final(self).size,
    {
        if self.queue.len() < self.size {
            self.queue.push(value);
            Ok(())
        } else {
            Err(value)
        }
    }

    /// Takes the oldest value; when there is none, says whether senders
    /// remain.
    pub fn try_recv(&mut self) -> (r: RecvPoll<T>)
        ensures
            final(self).size == old(self).size,
            final(self).tx_count == old(self).tx_count,
            old(self).queue@.len() > 0 ==> r == RecvPoll::Item(old(self).queue@[0]) && final(self).queue@ == old(
                self,
            ).queue@.drop_first(),
            old(self).queue@.len() == 0 && old(self).tx_count == 0 ==> r is Closed && final(self).queue@ == old(
                self,
            ).queue@,
            old(self).queue@.len() == 0 && old(self).tx_count > 0 ==> r is Pending && final(self).queue@ == old(
                self,
            ).queue@,
    {
        if self.queue.len() > 0 {
            let v = self.queue.remove(0);
            proof {
                assert(self.queue@ =~= old(self).queue@.drop_first());
            }
            RecvPoll::Item(v)
        } else if self.tx_count == 0 {
            RecvPoll::Closed
        } else {
            RecvPoll::Pending
        }
    }

    /// A sender goes away.
    pub fn drop_sender(&mut self)
        requires
            old(self).tx_count > 0,
        ensures
            final(self).tx_count == old(self).tx_count - 1,
            final(self).size == old(self).size,
            final(self).queue@ == old(self).queue@,
    {
        self.tx_count = self.tx_count - 1;
    }
}

} // verus!
