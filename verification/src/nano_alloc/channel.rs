//! Channels between tasks: on one core, a queue in send order; on
//! different cores, a one-shot slot behind a spin lock, and unbounded and
//! bounded lock-free queues. A receiver is
//! polled: it is ready with a value when one was waiting, and pending
//! otherwise.

pub mod multiple;
pub mod single;

use vstd::prelude::*;
use std::sync::Arc;
use crate::poll::Poll;

verus! {

/// What a receiver answers when it took `taken` out of its channel: ready
/// with the value, or pending when there was none.
pub fn ready_or_pending<T>(taken: Option<T>) -> (r: Poll<T>)
    ensures
        taken matches Some(v) ==> r == Poll::Ready(v),
        taken is None ==> r == Poll::<T>::Pending,
{
    match taken {
        Some(value) => Poll::Ready(value),
        None => Poll::Pending,
    }
}

/// Calls `Arc::clone`, which makes another pointer to the same allocation,
/// so the clone points to the value `arc` points to.
#[verifier::external_body]
pub(crate) fn arc_clone<T>(arc: &Arc<T>) -> (r: Arc<T>)
    ensures
        r == *arc,
{
    Arc::clone(arc)
}

} // verus!
