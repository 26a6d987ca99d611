//! The outcome of advancing an asynchronous computation one step.
use vstd::prelude::*;

verus! {

/// The outcome of polling: a value, or not yet.
#[derive(Debug, Clone, Copy, PartialEq, Eq)]
pub enum Poll<T> {
    /// The computation finished with this value.
    Ready(T),
    /// The computation has not finished yet.
    Pending,
}

impl<T> Poll<T> {
    /// Whether the computation finished.
    pub fn is_ready(&self) -> (r: bool)
        ensures
            r == (*self is Ready),
    {
        match self {
            Poll::Ready(_) => true,
            Poll::Pending => false,
        }
    }

    /// Whether the computation has not finished yet.
    pub fn is_pending(&self) -> (r: bool)
        ensures
            r == (*self is Pending),
    {
        match self {
            Poll::Ready(_) => false,
            Poll::Pending => true,
        }
    }
}

/// A computation that is advanced one step at a time, as an asynchronous
/// task is polled by an executor.
pub trait Pollable {
    /// What the computation produces when it finishes.
    type Output;

    /// One step of the computation: polling `self` can give `r` and leave
    /// the computation as `next`. Each computation says what its steps are.
    spec fn step(self, next: Self, r: Poll<Self::Output>) -> bool;

    /// Advances the computation by one step.
    fn poll(&mut self) -> (r: Poll<Self::Output>)
        ensures
            old(self).step(*final(self), r),
    ;
}

/// `after` is `before` advanced by one poll that gave `p` (when `p` is
/// `Some`), or `before` left as it was, not polled (when `p` is `None`).
pub open spec fn stepped<P: Pollable>(before: P, after: P, p: Option<Poll<P::Output>>) -> bool {
    match p {
        Some(r) => before.step(after, r),
        None => after == before,
    }
}

} // verus!
