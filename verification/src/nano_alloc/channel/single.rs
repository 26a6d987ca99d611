//! The queue behind a channel between tasks of one core: items go in at the
//! back and come out at the front, in the order they were sent.
use vstd::prelude::*;
use std::collections::VecDeque;
use crate::poll::Poll;
use super::ready_or_pending;

verus! {

/// The queue of a single-core channel.
#[derive(Debug)]
#[verifier::reject_recursive_types(Data)]
pub struct ChannelQueue<Data>(VecDeque<Data>);

impl<Data> View for ChannelQueue<Data> {
    type V = Seq<Data>;

    /// The waiting items, oldest first.
    closed spec fn view(&self) -> Seq<Data> {
        self.0@
    }
}

impl<Data> ChannelQueue<Data> {
    /// An empty queue.
    pub fn new() -> (r: Self)
        ensures
            r@ == Seq::<Data>::empty(),
    {
        ChannelQueue(VecDeque::new())
    }

    /// An empty queue with room for `capacity` items before it grows.
    pub fn with_capacity(capacity: usize) -> (r: Self)
        ensures
            r@ == Seq::<Data>::empty(),
    {
        ChannelQueue(VecDeque::with_capacity(capacity))
    }

    /// Sends an item: it waits behind the items already sent.
    pub fn send(&mut self, value: Data)
        ensures
            final(self)@ == old(self)@.push(value),
    {
        self.0.push_back(value);
    }

    /// Polls for the next item: ready with the oldest waiting item, which
    /// leaves the queue, or pending when none is waiting.
    pub fn poll(&mut self) -> (r: Poll<Data>)
        ensures
            old(self)@.len() == 0 ==> r == Poll::<Data>::Pending && final(self)@ == old(self)@,
            old(self)@.len() > 0 ==> r == Poll::Ready(old(self)@[0]) && final(self)@ == old(
                self,
            )@.drop_first(),
    {
        let taken = self.0.pop_front();
        proof {
            if old(self)@.len() > 0 {
                assert(self@ =~= old(self)@.drop_first());
            }
        }
        ready_or_pending(taken)
    }
}

} // verus!
