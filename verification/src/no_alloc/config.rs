//! Executor size configurations.
use vstd::prelude::*;

verus! {

/// The number of cores and the run-queue size of an executor.
pub trait ExecutorConfig {
    /// The number of cores.
    fn max_cores() -> usize;

    /// The capacity of each core's run queue.
    fn queue_size() -> usize;
}

/// Four cores with queues of 256 tasks.
pub struct SmallConfig;

impl ExecutorConfig for SmallConfig {
    fn max_cores() -> (r: usize)
        ensures
            r == 4,
    {
        4
    }

    fn queue_size() -> (r: usize)
        ensures
            r == 256,
    {
        256
    }
}

/// Sixteen cores with queues of 128 tasks: with more cores, each queue can
/// be smaller.
pub struct LargeConfig;

impl ExecutorConfig for LargeConfig {
    fn max_cores() -> (r: usize)
        ensures
            r == 16,
    {
        16
    }

    fn queue_size() -> (r: usize)
        ensures
            r == 128,
    {
        128
    }
}

} // verus!
