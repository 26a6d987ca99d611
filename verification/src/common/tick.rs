//! Clock frequency calibration from hardware tick samples.
use vstd::prelude::*;

verus! {

/// The hardware clock frequency, with the tick counts of the common time
/// units derived from it.
#[derive(Debug, Clone, Copy, PartialEq, Eq)]
pub struct ClockFreq {
    hz: u64,
    ms: u64,
    us: u64,
    ns: u64,
    ps: u64,
}

/// The larger of `x` and one.
pub open spec fn at_least_one(x: int) -> int {
    if x < 1 {
        1
    } else {
        x
    }
}

impl ClockFreq {
    /// Ticks per second.
    pub closed spec fn spec_hz(self) -> u64 {
        self.hz
    }

    /// Ticks per millisecond.
    pub closed spec fn spec_ms(self) -> u64 {
        self.ms
    }

    /// Ticks per microsecond.
    pub closed spec fn spec_us(self) -> u64 {
        self.us
    }

    /// Ticks per nanosecond.
    pub closed spec fn spec_ns(self) -> u64 {
        self.ns
    }

    /// Ticks per picosecond.
    pub closed spec fn spec_ps(self) -> u64 {
        self.ps
    }

    /// The frequency derived from `hz` ticks per second: the finer units
    /// are at least one tick, except picoseconds, which is zero below 1 THz.
    pub open spec fn derived_from(self, hz: u64) -> bool {
        &&& self.spec_hz() == hz
        &&& self.spec_ms() == at_least_one(hz as int / 1000)
        &&& self.spec_us() == at_least_one(hz as int / 1_000_000)
        &&& self.spec_ns() == at_least_one(hz as int / 1_000_000_000)
        &&& self.spec_ps() == hz as int / 1_000_000_000_000
    }

    /// A frequency that has not been calibrated yet: every unit is zero
    /// ticks.
    pub fn new() -> (r: Self)
        ensures
            r.spec_hz() == 0 && r.spec_ms() == 0 && r.spec_us() == 0 && r.spec_ns() == 0
                && r.spec_ps() == 0,
    {
        ClockFreq { hz: 0, ms: 0, us: 0, ns: 0, ps: 0 }
    }

    /// The frequency of `hz` ticks per second, with its derived units.
    pub fn from_hz(hz: u64) -> (r: Self)
        ensures
            r.derived_from(hz),
    {
        let ms = hz / 1000;
        let us = hz / 1_000_000;
        let ns = hz / 1_000_000_000;
        ClockFreq {
            hz,
            ms: if ms < 1 { 1 } else { ms },
            us: if us < 1 { 1 } else { us },
            ns: if ns < 1 { 1 } else { ns },
            ps: hz / 1_000_000_000_000,
        }
    }

    /// Ticks per second.
    pub fn hz(&self) -> (r: u64)
        ensures
            r == self.spec_hz(),
    {
        self.hz
    }

    /// Ticks per millisecond.
    pub fn ms(&self) -> (r: u64)
        ensures
            r == self.spec_ms(),
    {
        self.ms
    }

    /// Ticks per microsecond.
    pub fn us(&self) -> (r: u64)
        ensures
            r == self.spec_us(),
    {
        self.us
    }

    /// Ticks per nanosecond.
    pub fn ns(&self) -> (r: u64)
        ensures
            r == self.spec_ns(),
    {
        self.ns
    }

    /// Ticks per picosecond.
    pub fn ps(&self) -> (r: u64)
        ensures
            r == self.spec_ps(),
    {
        self.ps
    }
}

/// Estimates ticks per second from two tick samples taken 100 ms apart.
pub fn calc_freq_blocking(start: u64, end: u64) -> (r: u64)
    requires
        start <= end,
        (end - start) * 10 <= u64::MAX,
    ensures
        r == (end - start) * 10,
{
    let ticks_per_100ms = end - start;
    ticks_per_100ms * 10
}

/// Calibrates `freq` from two tick samples taken 50 ms apart and returns
/// the ticks per second.
pub fn init_clock_freq(start: u64, end: u64, freq: &mut ClockFreq) -> (r: u64)
    requires
        start <= end,
        (end - start) * 20 <= u64::MAX,
    ensures
        r == (end - start) * 20,
        final(freq).derived_from(r),
{
    let ticks_per_50ms = end - start;
    let hz = ticks_per_50ms * 20;
    *freq = ClockFreq::from_hz(hz);
    hz
}

} // verus!
