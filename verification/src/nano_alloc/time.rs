//! Tick-based timers and timeouts.
//!
//! Deadlines are absolute hardware tick counts. The current tick count and
//! the calibrated clock frequency are passed in by the caller.
use vstd::prelude::*;
use crate::common::tick::ClockFreq;
use crate::poll::{Poll, Pollable};

verus! {

/// A computation with a time limit: it fails once the deadline has passed
/// before the computation finished.
#[derive(Debug)]
pub struct Timeout<F> {
    future: F,
    deadline: u64,
}

impl<F> Timeout<F> {
    /// The deadline, in ticks.
    pub closed spec fn spec_deadline(self) -> u64 {
        self.deadline
    }

    /// The guarded computation.
    pub closed spec fn spec_future(self) -> F {
        self.future
    }

    /// Guards `future` with a deadline `ticks` after `now`, saturating at
    /// the largest tick count.
    pub fn new(future: F, ticks: u64, now: u64) -> (r: Self)
        ensures
            r.spec_deadline() == (if now + ticks > u64::MAX { u64::MAX as int } else { now + ticks }),
            r.spec_future() == future,
    {
        Timeout { future, deadline: now.saturating_add(ticks) }
    }

    /// Guards an already pinned `future` with a deadline `ticks` after
    /// `now`, saturating at the largest tick count.
    pub fn new_pin(future: F, ticks: u64, now: u64) -> (r: Self)
        ensures
            r.spec_deadline() == (if now + ticks > u64::MAX { u64::MAX as int } else { now + ticks }),
            r.spec_future() == future,
    {
        Timeout { future, deadline: now.saturating_add(ticks) }
    }
}

impl<F: Pollable> Timeout<F> {
    /// Polls at tick `now`: fails once the deadline is reached, without
    /// polling the computation again; otherwise polls it once and passes its
    /// value on when it finishes.
    pub fn poll(&mut self, now: u64) -> (r: Poll<Result<F::Output, ()>>)
        ensures
            final(self).spec_deadline() == old(self).spec_deadline(),
            now >= old(self).spec_deadline() ==> r == Poll::Ready(Err::<F::Output, ()>(()))
                && final(self).spec_future() == old(self).spec_future(),
            now < old(self).spec_deadline() ==> exists|p: Poll<F::Output>|
                #[trigger] old(self).spec_future().step(final(self).spec_future(), p) && (
                p matches Poll::Ready(v) ==> r == Poll::Ready(Ok::<F::Output, ()>(v))) && (p is Pending
                ==> r == Poll::<Result<F::Output, ()>>::Pending),
    {
        if now >= self.deadline {
            return Poll::Ready(Err(()));
        }
        let ghost f0 = self.future;
        let p = self.future.poll();
        let ghost polled = p;
        let r = timeout_outcome(p);
        proof {
            assert(f0.step(self.future, polled));
            assert(old(self).spec_future().step(self.spec_future(), polled));
        }
        r
    }
}

/// What a timeout answers, before its deadline, when the guarded
/// computation's poll gave `polled`: its value, or pending.
pub fn timeout_outcome<T>(polled: Poll<T>) -> (r: Poll<Result<T, ()>>)
    ensures
        polled matches Poll::Ready(v) ==> r == Poll::Ready(Ok::<T, ()>(v)),
        polled is Pending ==> r == Poll::<Result<T, ()>>::Pending,
{
    match polled {
        Poll::Ready(val) => Poll::Ready(Ok(val)),
        Poll::Pending => Poll::Pending,
    }
}

/// A timer that expires at an absolute tick count.
#[derive(Debug, Clone, Copy, PartialEq, Eq)]
pub struct WaitTimer(pub u64);

/// `a * b`, saturating at the largest `u64`.
pub open spec fn sat_mul(a: int, b: int) -> int {
    if a * b > u64::MAX {
        u64::MAX as int
    } else {
        a * b
    }
}

/// `a + b` wrapping around the `u64` range.
pub open spec fn wrap_add(a: int, b: int) -> int {
    (a + b) % 0x1_0000_0000_0000_0000
}

/// Multiplication saturating at the largest `u64`.
pub fn saturating_mul(a: u64, b: u64) -> (r: u64)
    ensures
        r == sat_mul(a as int, b as int),
{
    match a.checked_mul(b) {
        Some(x) => x,
        None => u64::MAX,
    }
}

impl WaitTimer {
    /// A timer that expires at tick `deadline`.
    pub fn until(deadline: u64) -> (r: Self)
        ensures
            r.0 == deadline,
    {
        WaitTimer(deadline)
    }

    /// A timer that expires `ticks_to_wait` ticks after `now`, wrapping
    /// around the tick range.
    pub fn after(ticks_to_wait: u64, now: u64) -> (r: Self)
        ensures
            r.0 == wrap_add(now as int, ticks_to_wait as int),
    {
        WaitTimer(now.wrapping_add(ticks_to_wait))
    }

    /// Whether tick `now` has reached the deadline.
    pub fn is_expired(&self, now: u64) -> (r: bool)
        ensures
            r == (now >= self.0),
    {
        now >= self.0
    }

    /// Polls at tick `now`: ready once the deadline is reached.
    pub fn poll(&self, now: u64) -> (r: Poll<()>)
        ensures
            now >= self.0 ==> r == Poll::Ready(()),
            now < self.0 ==> r == Poll::<()>::Pending,
    {
        if self.is_expired(now) {
            Poll::Ready(())
        } else {
            Poll::Pending
        }
    }

    /// A timer for `y` years (of 365 days).
    pub fn from_year(y: u64, freq: &ClockFreq, now: u64) -> (r: Self)
        ensures
            r.0 == wrap_add(
                now as int,
                sat_mul(y as int, sat_mul(freq.spec_hz() as int, 31536000)),
            ),
    {
        Self::after(saturating_mul(y, saturating_mul(freq.hz(), 31536000)), now)
    }

    /// A timer for `m` months (of 30 days).
    pub fn from_month(m: u64, freq: &ClockFreq, now: u64) -> (r: Self)
        requires
            freq.spec_hz() * 2592000 <= u64::MAX,
        ensures
            r.0 == wrap_add(now as int, sat_mul(m as int, freq.spec_hz() * 2592000)),
    {
        Self::after(saturating_mul(m, freq.hz() * 2592000), now)
    }

    /// A timer for `w` weeks.
    pub fn from_week(w: u64, freq: &ClockFreq, now: u64) -> (r: Self)
        requires
            freq.spec_hz() * 604800 <= u64::MAX,
        ensures
            r.0 == wrap_add(now as int, sat_mul(w as int, freq.spec_hz() * 604800)),
    {
        Self::after(saturating_mul(w, freq.hz() * 604800), now)
    }

    /// A timer for `d` days.
    pub fn from_day(d: u64, freq: &ClockFreq, now: u64) -> (r: Self)
        requires
            freq.spec_hz() * 86400 <= u64::MAX,
        ensures
            r.0 == wrap_add(now as int, sat_mul(d as int, freq.spec_hz() * 86400)),
    {
        Self::after(saturating_mul(d, freq.hz() * 86400), now)
    }

    /// A timer for `h` hours.
    pub fn from_hour(h: u64, freq: &ClockFreq, now: u64) -> (r: Self)
        requires
            freq.spec_hz() * 3600 <= u64::MAX,
        ensures
            r.0 == wrap_add(now as int, sat_mul(h as int, freq.spec_hz() * 3600)),
    {
        Self::after(saturating_mul(h, freq.hz() * 3600), now)
    }

    /// A timer for `min` minutes.
    pub fn from_min(min: u64, freq: &ClockFreq, now: u64) -> (r: Self)
        requires
            freq.spec_hz() * 60 <= u64::MAX,
        ensures
            r.0 == wrap_add(now as int, sat_mul(min as int, freq.spec_hz() * 60)),
    {
        Self::after(saturating_mul(min, freq.hz() * 60), now)
    }

    /// A timer for `s` seconds.
    pub fn from_s(s: u64, freq: &ClockFreq, now: u64) -> (r: Self)
        ensures
            r.0 == wrap_add(now as int, sat_mul(s as int, freq.spec_hz() as int)),
    {
        Self::after(saturating_mul(s, freq.hz()), now)
    }

    /// A timer for `ms` milliseconds.
    pub fn from_ms(ms: u64, freq: &ClockFreq, now: u64) -> (r: Self)
        ensures
            r.0 == wrap_add(now as int, sat_mul(ms as int, freq.spec_ms() as int)),
    {
        Self::after(saturating_mul(ms, freq.ms()), now)
    }

    /// A timer for `us` microseconds.
    pub fn from_us(us: u64, freq: &ClockFreq, now: u64) -> (r: Self)
        ensures
            r.0 == wrap_add(now as int, sat_mul(us as int, freq.spec_us() as int)),
    {
        Self::after(saturating_mul(us, freq.us()), now)
    }

    /// A timer for `ns` nanoseconds.
    pub fn from_ns(ns: u64, freq: &ClockFreq, now: u64) -> (r: Self)
        ensures
            r.0 == wrap_add(now as int, sat_mul(ns as int, freq.spec_ns() as int)),
    {
        Self::after(saturating_mul(ns, freq.ns()), now)
    }

    /// A timer for `ps` picoseconds.
    pub fn from_ps(ps: u64, freq: &ClockFreq, now: u64) -> (r: Self)
        ensures
            r.0 == wrap_add(now as int, sat_mul(ps as int, freq.spec_ps() as int)),
    {
        Self::after(saturating_mul(ps, freq.ps()), now)
    }

    /// A timer for one frame at `fps` frames per second (at least one).
    pub fn from_fps(fps: u64, freq: &ClockFreq, now: u64) -> (r: Self)
        ensures
            r.0 == wrap_add(
                now as int,
                freq.spec_hz() as int / (if fps < 1 { 1int } else { fps as int }),
            ),
    {
        let frames = if fps < 1 { 1 } else { fps };
        Self::after(freq.hz() / frames, now)
    }
}

impl WaitTimer {
    /// The deadline of [`WaitTimer::from_year`].
    pub open spec fn spec_from_year(n: u64, freq: &ClockFreq, now: u64) -> WaitTimer {
        WaitTimer(wrap_add(now as int, sat_mul(n as int, sat_mul(freq.spec_hz() as int, 31536000))) as u64)
    }

    /// The deadline of [`WaitTimer::from_month`].
    pub open spec fn spec_from_month(n: u64, freq: &ClockFreq, now: u64) -> WaitTimer {
        WaitTimer(wrap_add(now as int, sat_mul(n as int, freq.spec_hz() * 2592000)) as u64)
    }

    /// The deadline of [`WaitTimer::from_week`].
    pub open spec fn spec_from_week(n: u64, freq: &ClockFreq, now: u64) -> WaitTimer {
        WaitTimer(wrap_add(now as int, sat_mul(n as int, freq.spec_hz() * 604800)) as u64)
    }

    /// The deadline of [`WaitTimer::from_day`].
    pub open spec fn spec_from_day(n: u64, freq: &ClockFreq, now: u64) -> WaitTimer {
        WaitTimer(wrap_add(now as int, sat_mul(n as int, freq.spec_hz() * 86400)) as u64)
    }

    /// The deadline of [`WaitTimer::from_hour`].
    pub open spec fn spec_from_hour(n: u64, freq: &ClockFreq, now: u64) -> WaitTimer {
        WaitTimer(wrap_add(now as int, sat_mul(n as int, freq.spec_hz() * 3600)) as u64)
    }

    /// The deadline of [`WaitTimer::from_min`].
    pub open spec fn spec_from_min(n: u64, freq: &ClockFreq, now: u64) -> WaitTimer {
        WaitTimer(wrap_add(now as int, sat_mul(n as int, freq.spec_hz() * 60)) as u64)
    }

    /// The deadline of [`WaitTimer::from_s`].
    pub open spec fn spec_from_s(n: u64, freq: &ClockFreq, now: u64) -> WaitTimer {
        WaitTimer(wrap_add(now as int, sat_mul(n as int, freq.spec_hz() as int)) as u64)
    }

    /// The deadline of [`WaitTimer::from_ms`].
    pub open spec fn spec_from_ms(n: u64, freq: &ClockFreq, now: u64) -> WaitTimer {
        WaitTimer(wrap_add(now as int, sat_mul(n as int, freq.spec_ms() as int)) as u64)
    }

    /// The deadline of [`WaitTimer::from_us`].
    pub open spec fn spec_from_us(n: u64, freq: &ClockFreq, now: u64) -> WaitTimer {
        WaitTimer(wrap_add(now as int, sat_mul(n as int, freq.spec_us() as int)) as u64)
    }

    /// The deadline of [`WaitTimer::from_ns`].
    pub open spec fn spec_from_ns(n: u64, freq: &ClockFreq, now: u64) -> WaitTimer {
        WaitTimer(wrap_add(now as int, sat_mul(n as int, freq.spec_ns() as int)) as u64)
    }

    /// The deadline of [`WaitTimer::from_ps`].
    pub open spec fn spec_from_ps(n: u64, freq: &ClockFreq, now: u64) -> WaitTimer {
        WaitTimer(wrap_add(now as int, sat_mul(n as int, freq.spec_ps() as int)) as u64)
    }

    /// The deadline of [`WaitTimer::from_fps`].
    pub open spec fn spec_from_fps(n: u64, freq: &ClockFreq, now: u64) -> WaitTimer {
        WaitTimer(wrap_add(now as int, freq.spec_hz() as int / (if n < 1 { 1int } else { n as int })) as u64)
    }
}

/// Counting `n` units of `k` seconds at `hz` ticks per second gives the
/// ticks of `n * k` seconds, saturating alike.
proof fn lemma_sat_mul_units(n: int, k: int, hz: int)
    requires
        n >= 0,
        k > 0,
        hz >= 0,
    ensures
        sat_mul(n, hz * k) == sat_mul(n * k, hz),
        sat_mul(n, sat_mul(hz, k)) == sat_mul(n * k, hz),
{
    assert(n * (hz * k) == (n * k) * hz) by (nonlinear_arith);
    if hz * k > u64::MAX && n > 0 {
        assert(n * k * hz >= hz * k) by (nonlinear_arith)
            requires
                n > 0,
                k > 0,
                hz >= 0,
        ;
        assert(n * u64::MAX >= u64::MAX) by (nonlinear_arith)
            requires
                n > 0,
        ;
    }
    if n == 0 {
        assert(n * k == 0 && n * (hz * k) == 0 && n * (u64::MAX as int) == 0) by (nonlinear_arith)
            requires
                n == 0,
        ;
    }
}

/// Each unit lasts its number of seconds: a timer for `n` years, months
/// (30 days), weeks, days, hours or minutes has the deadline of the timer
/// for `n` times 31536000, 2592000, 604800, 86400, 3600 or 60 seconds,
/// whenever that many seconds is a `u64` count.
pub proof fn law_units_in_seconds(n: u64, freq: &ClockFreq, now: u64)
    ensures
        n * 31536000 <= u64::MAX ==> WaitTimer::spec_from_year(n, freq, now)
            == WaitTimer::spec_from_s((n * 31536000) as u64, freq, now),
        n * 2592000 <= u64::MAX ==> WaitTimer::spec_from_month(n, freq, now)
            == WaitTimer::spec_from_s((n * 2592000) as u64, freq, now),
        n * 604800 <= u64::MAX ==> WaitTimer::spec_from_week(n, freq, now)
            == WaitTimer::spec_from_s((n * 604800) as u64, freq, now),
        n * 86400 <= u64::MAX ==> WaitTimer::spec_from_day(n, freq, now)
            == WaitTimer::spec_from_s((n * 86400) as u64, freq, now),
        n * 3600 <= u64::MAX ==> WaitTimer::spec_from_hour(n, freq, now)
            == WaitTimer::spec_from_s((n * 3600) as u64, freq, now),
        n * 60 <= u64::MAX ==> WaitTimer::spec_from_min(n, freq, now)
            == WaitTimer::spec_from_s((n * 60) as u64, freq, now),
{
    let hz = freq.spec_hz() as int;
    lemma_sat_mul_units(n as int, 31536000, hz);
    lemma_sat_mul_units(n as int, 2592000, hz);
    lemma_sat_mul_units(n as int, 604800, hz);
    lemma_sat_mul_units(n as int, 86400, hz);
    lemma_sat_mul_units(n as int, 3600, hz);
    lemma_sat_mul_units(n as int, 60, hz);
}

/// A week is seven days, a day 24 hours, an hour 60 minutes and a minute
/// 60 seconds, as timers count them.
pub proof fn law_units_nest(n: u64, freq: &ClockFreq, now: u64)
    ensures
        n * 7 <= u64::MAX ==> WaitTimer::spec_from_week(n, freq, now) == WaitTimer::spec_from_day(
            (n * 7) as u64,
            freq,
            now,
        ),
        n * 24 <= u64::MAX ==> WaitTimer::spec_from_day(n, freq, now) == WaitTimer::spec_from_hour(
            (n * 24) as u64,
            freq,
            now,
        ),
        n * 60 <= u64::MAX ==> WaitTimer::spec_from_hour(n, freq, now) == WaitTimer::spec_from_min(
            (n * 60) as u64,
            freq,
            now,
        ),
        n * 60 <= u64::MAX ==> WaitTimer::spec_from_min(n, freq, now) == WaitTimer::spec_from_s(
            (n * 60) as u64,
            freq,
            now,
        ),
{
    let hz = freq.spec_hz() as int;
    assert(n * (hz * 604800) == (n * 7) * (hz * 86400)) by (nonlinear_arith);
    assert(n * (hz * 86400) == (n * 24) * (hz * 3600)) by (nonlinear_arith);
    assert(n * (hz * 3600) == (n * 60) * (hz * 60)) by (nonlinear_arith);
    assert(n * (hz * 60) == (n * 60) * hz) by (nonlinear_arith);
}

/// A frame at `f` frames per second lasts the whole number of ticks that
/// `f` frames fit into one second: `f` of them take at most a second, and
/// one tick more per frame would take more.
pub proof fn law_frame_fits_a_second(f: u64, freq: &ClockFreq, now: u64)
    requires
        f >= 1,
    ensures
        exists|q: int|
            0 <= q && q * f <= freq.spec_hz() < (q + 1) * f && #[trigger] wrap_add(now as int, q)
                == WaitTimer::spec_from_fps(f, freq, now).0,
{
    let hz = freq.spec_hz() as int;
    let q = hz / (f as int);
    vstd::arithmetic::div_mod::lemma_fundamental_div_mod(hz, f as int);
    assert(q * f <= hz < (q + 1) * f) by (nonlinear_arith)
        requires
            hz == f * q + hz % (f as int),
            0 <= hz % (f as int) < f,
    ;
    vstd::arithmetic::div_mod::lemma_div_pos_is_pos(hz, f as int);
    assert(0 <= wrap_add(now as int, q) < 0x1_0000_0000_0000_0000);
    assert(wrap_add(now as int, q) == WaitTimer::spec_from_fps(f, freq, now).0);
}

/// Timers from unit counts, written as `500.ms(freq, now)`.
pub trait _WaitTimer: Sized {
    /// A timer for this number of years (of 365 days).
    fn year(self, freq: &ClockFreq, now: u64) -> WaitTimer;

    /// A timer for this number of months (of 30 days).
    fn month(self, freq: &ClockFreq, now: u64) -> WaitTimer
        requires
            freq.spec_hz() * 2592000 <= u64::MAX,
    ;

    /// A timer for this number of weeks.
    fn week(self, freq: &ClockFreq, now: u64) -> WaitTimer
        requires
            freq.spec_hz() * 604800 <= u64::MAX,
    ;

    /// A timer for this number of days.
    fn day(self, freq: &ClockFreq, now: u64) -> WaitTimer
        requires
            freq.spec_hz() * 86400 <= u64::MAX,
    ;

    /// A timer for this number of hours.
    fn hour(self, freq: &ClockFreq, now: u64) -> WaitTimer
        requires
            freq.spec_hz() * 3600 <= u64::MAX,
    ;

    /// A timer for this number of minutes.
    fn mins(self, freq: &ClockFreq, now: u64) -> WaitTimer
        requires
            freq.spec_hz() * 60 <= u64::MAX,
    ;

    /// A timer for this number of seconds.
    fn s(self, freq: &ClockFreq, now: u64) -> WaitTimer;

    /// A timer for one period of this frequency in Hz: one second divided by
    /// the frequency (a frequency of zero is taken as one).
    fn hz(self, freq: &ClockFreq, now: u64) -> WaitTimer;

    /// A timer for this number of milliseconds.
    fn ms(self, freq: &ClockFreq, now: u64) -> WaitTimer;

    /// A timer for this number of microseconds.
    fn us(self, freq: &ClockFreq, now: u64) -> WaitTimer;

    /// A timer for this number of nanoseconds.
    fn ns(self, freq: &ClockFreq, now: u64) -> WaitTimer;

    /// A timer for this number of picoseconds.
    fn ps(self, freq: &ClockFreq, now: u64) -> WaitTimer;

    /// A timer for this number of frames per second, one frame.
    fn fps(self, freq: &ClockFreq, now: u64) -> WaitTimer;
}

impl _WaitTimer for u64 {
    fn year(self, freq: &ClockFreq, now: u64) -> (r: WaitTimer)
        ensures
            r == WaitTimer::spec_from_year(self, freq, now),
    {
        WaitTimer::from_year(self, freq, now)
    }

    fn month(self, freq: &ClockFreq, now: u64) -> (r: WaitTimer)
        ensures
            r == WaitTimer::spec_from_month(self, freq, now),
    {
        WaitTimer::from_month(self, freq, now)
    }

    fn week(self, freq: &ClockFreq, now: u64) -> (r: WaitTimer)
        ensures
            r == WaitTimer::spec_from_week(self, freq, now),
    {
        WaitTimer::from_week(self, freq, now)
    }

    fn day(self, freq: &ClockFreq, now: u64) -> (r: WaitTimer)
        ensures
            r == WaitTimer::spec_from_day(self, freq, now),
    {
        WaitTimer::from_day(self, freq, now)
    }

    fn hour(self, freq: &ClockFreq, now: u64) -> (r: WaitTimer)
        ensures
            r == WaitTimer::spec_from_hour(self, freq, now),
    {
        WaitTimer::from_hour(self, freq, now)
    }

    fn mins(self, freq: &ClockFreq, now: u64) -> (r: WaitTimer)
        ensures
            r == WaitTimer::spec_from_min(self, freq, now),
    {
        WaitTimer::from_min(self, freq, now)
    }

    fn s(self, freq: &ClockFreq, now: u64) -> (r: WaitTimer)
        ensures
            r == WaitTimer::spec_from_s(self, freq, now),
    {
        WaitTimer::from_s(self, freq, now)
    }

    fn hz(self, freq: &ClockFreq, now: u64) -> (r: WaitTimer)
        ensures
            r.0 == wrap_add(
                now as int,
                freq.spec_hz() as int / (if self < 1 { 1int } else { self as int }),
            ),
    {
        WaitTimer::from_fps(self, freq, now)
    }

    fn ms(self, freq: &ClockFreq, now: u64) -> (r: WaitTimer)
        ensures
            r == WaitTimer::spec_from_ms(self, freq, now),
    {
        WaitTimer::from_ms(self, freq, now)
    }

    fn us(self, freq: &ClockFreq, now: u64) -> (r: WaitTimer)
        ensures
            r == WaitTimer::spec_from_us(self, freq, now),
    {
        WaitTimer::from_us(self, freq, now)
    }

    fn ns(self, freq: &ClockFreq, now: u64) -> (r: WaitTimer)
        ensures
            r == WaitTimer::spec_from_ns(self, freq, now),
    {
        WaitTimer::from_ns(self, freq, now)
    }

    fn ps(self, freq: &ClockFreq, now: u64) -> (r: WaitTimer)
        ensures
            r == WaitTimer::spec_from_ps(self, freq, now),
    {
        WaitTimer::from_ps(self, freq, now)
    }

    fn fps(self, freq: &ClockFreq, now: u64) -> (r: WaitTimer)
        ensures
            r == WaitTimer::spec_from_fps(self, freq, now),
    {
        WaitTimer::from_fps(self, freq, now)
    }
}

/// Time limits for every computation, written as `task.timeout(ticks, now)`.
pub trait _Timeout: Sized {
    /// Guards this computation with a deadline `duration_ticks` after `now`.
    fn timeout(self, duration_ticks: u64, now: u64) -> (r: Timeout<Self>)
        ensures
            r.spec_deadline() == (if now + duration_ticks > u64::MAX {
                u64::MAX as int
            } else {
                now + duration_ticks
            }),
            r.spec_future() == self,
    {
        Timeout::new(self, duration_ticks, now)
    }
}

impl<F: Pollable> _Timeout for F {

}

} // verus!
