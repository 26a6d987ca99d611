//! The allocation-free executor parts: statically sized task pools, task
//! states, wake policies and size configurations.

pub mod config;
pub mod task;
pub mod waker;
pub mod channel;
pub mod executor;
