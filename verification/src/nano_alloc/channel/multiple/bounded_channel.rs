//! A bounded multi-core channel over a lock-free array queue.
use vstd::prelude::*;
use std::sync::Arc;
use crossbeam::queue::ArrayQueue;
use crate::nano_alloc::channel::{arc_clone, ready_or_pending};
use crate::poll::Poll;

verus! {

/// Makes `crossbeam::queue::ArrayQueue` known to the verifier as an opaque type.
#[verifier::external_type_specification]
#[verifier::external_body]
#[verifier::reject_recursive_types(T)]
pub struct ExArrayQueue<T>(ArrayQueue<T>);

/// Calls `ArrayQueue::new`, which panics on a zero capacity and on one too
/// large for its lap counter; nothing is claimed of the queue.
#[verifier::external_body]
fn array_queue_new<T>(cap: usize) -> (r: ArrayQueue<T>)
    requires
        0 < cap <= isize::MAX,
{
    ArrayQueue::new(cap)
}

/// Calls `ArrayQueue::push`: the item goes in, or, when the queue is full,
/// comes back unchanged as the error. Which of the two happens depends on
/// what other cores did to the queue, so it is not claimed.
#[verifier::external_body]
fn array_queue_push<T>(queue: &ArrayQueue<T>, value: T) -> (r: Result<(), T>)
    ensures
        r matches Err(v) ==> v == value,
{
    queue.push(value)
}

/// Calls `ArrayQueue::pop`: takes the oldest item out, if any. What it
/// returns depends on what other cores did to the queue; nothing is
/// claimed.
#[verifier::external_body]
fn array_queue_pop<T>(queue: &ArrayQueue<T>) -> (r: Option<T>) {
    queue.pop()
}

/// The sending end of a bounded multi-core channel.
#[derive(Clone, Debug)]
#[verifier::reject_recursive_types(Data)]
pub struct ChannelSender<Data>(pub Arc<ArrayQueue<Data>>);

/// The receiving end of a bounded multi-core channel.
#[derive(Debug)]
#[verifier::reject_recursive_types(Data)]
pub struct ChannelReceiver<Data>(pub Arc<ArrayQueue<Data>>);

/// Creates a bounded channel holding up to `cap` items; both ends share
/// one queue.
pub fn channel<Data>(cap: usize) -> (r: (ChannelSender<Data>, ChannelReceiver<Data>))
    requires
        0 < cap <= isize::MAX,
    ensures
        r.0.0 == r.1.0,
{
    let queue = Arc::new(array_queue_new(cap));
    let other = arc_clone(&queue);
    (ChannelSender(other), ChannelReceiver(queue))
}

impl<Data> ChannelSender<Data> {
    /// Attempts to send an item; when the channel is full the item is
    /// given back.
    pub fn try_send(&self, value: Data) -> (r: Result<(), Data>)
        ensures
            r matches Err(v) ==> v == value,
    {
        array_queue_push(&self.0, value)
    }
}

impl<Data> ChannelReceiver<Data> {
    /// One poll of the receiver: ready with the oldest item when there is
    /// one, pending otherwise.
    pub fn poll(&mut self) -> (r: Poll<Data>) {
        ready_or_pending(array_queue_pop(&self.0))
    }
}

} // verus!
