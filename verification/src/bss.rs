//! Parts for executors whose state lives in static memory.

pub mod sleep;
