//! A multi-producer multi-consumer channel over a lock-free bounded queue
//! that lives in static memory. Sending fails while the queue is full;
//! receiving fails while it is empty; the futures of the channel poll
//! until the operation goes through.
use vstd::prelude::*;
use nblfq::Queue as LockFreeQueue;
use crate::poll::Poll;

verus! {

/// Makes `nblfq::Queue` known to the verifier as an opaque type.
#[verifier::external_type_specification]
#[verifier::external_body]
#[verifier::reject_recursive_types(T)]
pub struct ExNblfqQueue<T, const N: usize>(LockFreeQueue<T, N>);

/// Calls `nblfq::Queue::enqueue`: the item goes in, or, when the queue is
/// full, comes back unchanged as the error. The queue indexes its slots
/// modulo `N`, so `N` must not be zero. Which of the two outcomes happens
/// depends on what other cores did to the queue, so it is not claimed.
#[verifier::external_body]
fn queue_enqueue<T, const N: usize>(queue: &LockFreeQueue<T, N>, item: T) -> (r: Result<(), T>)
    requires
        N > 0,
    ensures
        r matches Err(v) ==> v == item,
{
    queue.enqueue(item)
}

/// Calls `nblfq::Queue::dequeue`: takes an item out, if any. The queue
/// indexes its slots modulo `N`, so `N` must not be zero. What it returns
/// depends on what other cores did to the queue; nothing is claimed.
#[verifier::external_body]
fn queue_dequeue<T, const N: usize>(queue: &LockFreeQueue<T, N>) -> (r: Option<T>)
    requires
        N > 0,
{
    queue.dequeue()
}

/// The sending side of a channel.
#[verifier::reject_recursive_types(T)]
pub struct Sender<'a, T, const N: usize> {
    queue: &'a LockFreeQueue<T, N>,
}

/// The receiving side of a channel.
#[verifier::reject_recursive_types(T)]
pub struct Receiver<'a, T, const N: usize> {
    queue: &'a LockFreeQueue<T, N>,
}

/// Creates the two sides of a channel over `queue`.
pub fn channel<T, const N: usize>(queue: &LockFreeQueue<T, N>) -> (r: (Sender<'_, T, N>, Receiver<'_, T, N>))
    ensures
        r.0.queue() == queue,
        r.1.queue() == queue,
{
    (Sender { queue }, Receiver { queue })
}

impl<'a, T, const N: usize> Sender<'a, T, N> {
    /// The queue this side sends into.
    pub closed spec fn queue(self) -> &'a LockFreeQueue<T, N> {
        self.queue
    }

    /// Attempts to send an item without waiting; when the queue is full the
    /// item is given back.
    pub fn try_send(&self, item: T) -> (r: Result<(), T>)
        requires
            N > 0,
        ensures
            r matches Err(v) ==> v == item,
    {
        queue_enqueue(self.queue, item)
    }

    /// A future that sends `item`, polling until the queue takes it.
    pub fn send(&self, item: T) -> (r: SendFuture<'_, 'a, T, N>)
        ensures
            r.item() == Some(item),
            r.sender() == self,
    {
        SendFuture { sender: self, item: Some(item) }
    }
}

impl<'a, T, const N: usize> Receiver<'a, T, N> {
    /// The queue this side receives from.
    pub closed spec fn queue(self) -> &'a LockFreeQueue<T, N> {
        self.queue
    }

    /// Attempts to receive an item without waiting; `None` while the queue
    /// is empty.
    pub fn try_recv(&self) -> (r: Option<T>)
        requires
            N > 0,
    {
        queue_dequeue(self.queue)
    }

    /// A future that receives an item, polling until one is available.
    pub fn recv(&self) -> (r: RecvFuture<'_, 'a, T, N>)
        ensures
            r.receiver() == self,
    {
        RecvFuture { receiver: self }
    }
}

/// A future that sends one item.
#[verifier::reject_recursive_types(T)]
pub struct SendFuture<'f, 'a, T, const N: usize> {
    sender: &'f Sender<'a, T, N>,
    item: Option<T>,
}

impl<'f, 'a, T, const N: usize> SendFuture<'f, 'a, T, N> {
    /// The item still to send; `None` once it was sent.
    pub closed spec fn item(self) -> Option<T> {
        self.item
    }

    /// The side that sends.
    pub closed spec fn sender(self) -> &'f Sender<'a, T, N> {
        self.sender
    }

    /// One poll: tries to send the item; ready once the queue took it,
    /// pending with the item kept while the queue is full. The future must
    /// not be polled again after it was ready.
    pub fn poll(&mut self) -> (r: Poll<Result<(), T>>)
        requires
            N > 0,
            old(self).item() is Some,
        ensures
            final(self).sender() == old(self).sender(),
            r == Poll::Ready(Ok::<(), T>(())) ==> final(self).item() is None,
            r is Pending ==> final(self).item() == old(self).item(),
            r == Poll::Ready(Ok::<(), T>(())) || r is Pending,
    {
        let item = self.item.take().unwrap();
        let (r, kept) = send_outcome(self.sender.try_send(item));
        self.item = kept;
        r
    }
}

/// What a send future answers given the result of its attempt to send, and
/// the item it keeps: ready once the item went in, pending with the item
/// given back otherwise.
pub fn send_outcome<T>(sent: Result<(), T>) -> (r: (Poll<Result<(), T>>, Option<T>))
    ensures
        sent is Ok ==> r == (Poll::Ready(Ok::<(), T>(())), None::<T>),
        sent matches Err(v) ==> r == (Poll::<Result<(), T>>::Pending, Some(v)),
{
    match sent {
        Ok(()) => (Poll::Ready(Ok(())), None),
        Err(back) => (Poll::Pending, Some(back)),
    }
}

/// A future that receives one item.
#[verifier::reject_recursive_types(T)]
pub struct RecvFuture<'f, 'a, T, const N: usize> {
    receiver: &'f Receiver<'a, T, N>,
}

impl<'f, 'a, T, const N: usize> RecvFuture<'f, 'a, T, N> {
    /// The side that receives.
    pub closed spec fn receiver(self) -> &'f Receiver<'a, T, N> {
        self.receiver
    }

    /// One poll: ready with an item when the queue had one, pending
    /// otherwise.
    pub fn poll(&mut self) -> (r: Poll<T>)
        requires
            N > 0,
    {
        crate::nano_alloc::channel::ready_or_pending(self.receiver.try_recv())
    }
}

} // verus!
