//! A task: a computation with its polling interval and next run time.
use vstd::prelude::*;

verus! {

/// A task of the executor: a computation, the interval between two polls
/// (in ticks once added to an executor) and the tick at which it is due.
#[derive(Debug)]
pub struct TaskNode<F> {
    /// The computation.
    pub future: F,
    /// The polling frequency in Hz before the task is added to an executor,
    /// the interval in ticks after.
    pub interval: u64,
    /// The tick count at which the task is due next.
    pub next_run_time: u64,
}

impl<F> TaskNode<F> {
    /// A task to be polled at `freq` Hz, due at once.
    pub fn new(future: F, freq: u64) -> (r: Self)
        ensures
            r.future == future,
            r.interval == freq,
            r.next_run_time == 0,
    {
        TaskNode { future, interval: freq, next_run_time: 0 }
    }
}

} // verus!
