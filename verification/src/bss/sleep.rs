//! A sleep on the time-stamp counter.
use vstd::prelude::*;
use crate::poll::Poll;

verus! {

/// A sleep that ends at a time-stamp-counter value.
#[derive(Debug, Clone, Copy, PartialEq, Eq)]
pub struct Sleep {
    /// The counter value at which the sleep ends.
    pub target_tsc: u64,
}

impl Sleep {
    /// Polls the sleep at counter value `now`: ready once the target is
    /// reached; otherwise pending, and the task should be woken again at once.
    pub fn poll(&self, now: u64) -> (r: Poll<()>)
        ensures
            now >= self.target_tsc ==> r == Poll::Ready(()),
            now < self.target_tsc ==> r == Poll::<()>::Pending,
    {
        if now >= self.target_tsc {
            Poll::Ready(())
        } else {
            Poll::Pending
        }
    }
}

/// A sleep of `ms` milliseconds from counter value `now`, with `tsc_per_ms`
/// counter ticks per millisecond.
pub fn sleep_ms(ms: u64, tsc_per_ms: u64, now: u64) -> (r: Sleep)
    requires
        ms * tsc_per_ms <= u64::MAX,
        now + ms * tsc_per_ms <= u64::MAX,
    ensures
        r.target_tsc == now + ms * tsc_per_ms,
{
    let ticks = ms * tsc_per_ms;
    Sleep { target_tsc: now + ticks }
}

/// The counter ticks per millisecond measured over a 10 ms stall between
/// two counter readings.
pub fn calibrate_tsc(start: u64, end: u64) -> (r: u64)
    requires
        start <= end,
    ensures
        r == (end - start) / 10,
{
    (end - start) / 10
}

} // verus!
