//! A cooperative executor toolkit for UEFI and bare-metal targets: bounded
//! work-stealing queues, tick-based task schedulers, timers, pacing and
//! signalling primitives, each with a verified contract.

pub mod st3;
pub mod common;
pub mod poll;
pub mod nano_alloc;
pub mod nano_cast;
pub mod no_alloc;
pub mod bss;
pub mod util;
pub mod task;
pub mod executor;
pub mod entry;
