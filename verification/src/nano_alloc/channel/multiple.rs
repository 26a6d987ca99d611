//! Channels whose ends may live on different cores.

pub mod bounded_channel;
pub mod oneshot;
pub mod unbounded_channel;
