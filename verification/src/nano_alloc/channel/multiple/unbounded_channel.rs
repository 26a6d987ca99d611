//! An unbounded multi-core channel over a lock-free segmented queue.
use vstd::prelude::*;
use std::sync::Arc;
use crossbeam::queue::SegQueue;
use crate::nano_alloc::channel::{arc_clone, ready_or_pending};
use crate::poll::Poll;

verus! {

/// Makes `crossbeam::queue::SegQueue` known to the verifier as an opaque type.
#[verifier::external_type_specification]
#[verifier::external_body]
#[verifier::reject_recursive_types(T)]
pub struct ExSegQueue<T>(SegQueue<T>);

/// Calls `SegQueue::new`, which creates an empty queue.
#[verifier::external_body]
fn seg_queue_new<T>() -> (r: SegQueue<T>) {
    SegQueue::new()
}

/// Calls `SegQueue::push`, which always takes the item in.
#[verifier::external_body]
fn seg_queue_push<T>(queue: &SegQueue<T>, value: T) {
    queue.push(value)
}

/// Calls `SegQueue::pop`: takes the oldest item out, if any. What it
/// returns depends on what other cores did to the queue; nothing is
/// claimed.
#[verifier::external_body]
fn seg_queue_pop<T>(queue: &SegQueue<T>) -> (r: Option<T>) {
    queue.pop()
}

/// The sending end of an unbounded multi-core channel.
#[derive(Clone, Debug)]
#[verifier::reject_recursive_types(Data)]
pub struct ChannelSender<Data>(pub Arc<SegQueue<Data>>);

/// The receiving end of an unbounded multi-core channel.
#[derive(Debug)]
#[verifier::reject_recursive_types(Data)]
pub struct ChannelReceiver<Data>(pub Arc<SegQueue<Data>>);

/// Creates an unbounded channel; both ends share one queue.
pub fn channel<Data>() -> (r: (ChannelSender<Data>, ChannelReceiver<Data>))
    ensures
        r.0.0 == r.1.0,
{
    let queue = Arc::new(seg_queue_new());
    let other = arc_clone(&queue);
    (ChannelSender(other), ChannelReceiver(queue))
}

impl<Data> ChannelSender<Data> {
    /// Sends an item; an unbounded channel always takes it.
    pub fn send(&self, value: Data) {
        seg_queue_push(&self.0, value)
    }
}

impl<Data> ChannelReceiver<Data> {
    /// One poll of the receiver: ready with the oldest item when there is
    /// one, pending otherwise.
    pub fn poll(&mut self) -> (r: Poll<Data>) {
        ready_or_pending(seg_queue_pop(&self.0))
    }
}

} // verus!
