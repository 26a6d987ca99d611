//! Clock calibration helper.
use vstd::prelude::*;

verus! {

/// Estimates ticks per second from two tick samples taken 100 ms apart.
pub fn calc_freq_blocking(start: u64, end: u64) -> (r: u64)
    requires
        start <= end,
        (end - start) * 10 <= u64::MAX,
    ensures
        r == (end - start) * 10,
{
    crate::common::tick::calc_freq_blocking(start, end)
}

} // verus!
