//! The allocation-backed executor: tasks in a list, each polled at its own
//! frequency, with timers, timeouts and combinators for computations.

pub mod time;
pub mod control;
pub mod executor;
pub mod task;
pub mod channel;
