//! A one-shot multi-core channel: a single slot behind a spin lock.
use vstd::prelude::*;
use std::sync::Arc;
use crate::nano_alloc::channel::{arc_clone, ready_or_pending};
use crate::poll::Poll;

verus! {

/// Makes `spin::mutex::Mutex` known to the verifier as an opaque type.
#[verifier::external_type_specification]
#[verifier::external_body]
#[verifier::reject_recursive_types(T)]
#[verifier::reject_recursive_types(R)]
pub struct ExSpinMutex<T: ?Sized, R>(spin::mutex::Mutex<T, R>);

/// Makes `spin::relax::Spin`, the default relax strategy of the lock,
/// known to the verifier as an opaque type.
#[verifier::external_type_specification]
#[verifier::external_body]
pub struct ExSpin(spin::relax::Spin);

/// Calls `spin::Mutex::new`, which creates a lock around `value`.
#[verifier::external_body]
fn mutex_new<T>(value: T) -> (r: spin::Mutex<T>) {
    spin::Mutex::new(value)
}

/// Calls `spin::Mutex::lock` and, holding the lock, replaces the value it
/// guards with `value`, returning the old one. The old value depends on
/// what other cores stored, so nothing is claimed of it.
#[verifier::external_body]
fn lock_replace<T>(mutex: &spin::Mutex<T>, value: T) -> (r: T) {
    std::mem::replace(&mut *mutex.lock(), value)
}

/// The sending end of a one-shot multi-core channel.
#[derive(Debug)]
#[verifier::reject_recursive_types(Data)]
pub struct Oneshot<Data>(pub Arc<spin::Mutex<Option<Data>>>);

/// The receiving end of a one-shot multi-core channel.
#[derive(Debug)]
#[verifier::reject_recursive_types(Data)]
pub struct OneShotReceiver<Data>(pub Arc<spin::Mutex<Option<Data>>>);

impl<Data> Oneshot<Data> {
    /// Creates the two ends of an empty one-shot channel.
    pub fn new() -> (r: (Self, OneShotReceiver<Data>))
        ensures
            r.0.0 == r.1.0,
    {
        let data = Arc::new(mutex_new(None));
        let other = arc_clone(&data);
        (Oneshot(other), OneShotReceiver(data))
    }

    /// Stores the value in the slot, replacing one not taken yet.
    pub fn send(self, value: Data) {
        let _previous = lock_replace(&self.0, Some(value));
    }
}

impl<Data> OneShotReceiver<Data> {
    /// One poll of the receiver: takes the value out of the slot and is
    /// ready with it, or is pending while the slot is empty.
    pub fn poll(&mut self) -> (r: Poll<Data>) {
        ready_or_pending(lock_replace(&self.0, None))
    }
}

} // verus!
