//! Hardware-tick timing, execution pacing and signalling.

pub mod signal;
pub mod step;
pub mod tick;
