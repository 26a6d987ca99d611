use uefi_async::bss::sleep::{calibrate_tsc, sleep_ms};
use uefi_async::common::signal::{MultiCoreSignal, Signal, UnsafeSignal};
use uefi_async::common::step::{Pace, Pacer, Skip, Yield, _Yield};
use uefi_async::common::tick::{calc_freq_blocking, init_clock_freq, ClockFreq};
use uefi_async::poll::Poll;

#[test]
fn clock_freq_from_hz_derives_units() {
    let f = ClockFreq::from_hz(3_000_000_000);
    assert_eq!(f.hz(), 3_000_000_000);
    assert_eq!(f.ms(), 3_000_000);
    assert_eq!(f.us(), 3_000);
    assert_eq!(f.ns(), 3);
    assert_eq!(f.ps(), 0);
}

#[test]
fn clock_freq_units_are_at_least_one_tick() {
    let f = ClockFreq::from_hz(500);
    assert_eq!(f.ms(), 1);
    assert_eq!(f.us(), 1);
    assert_eq!(f.ns(), 1);
    assert_eq!(f.ps(), 0);
    let g = ClockFreq::from_hz(2_000_000_000_000);
    assert_eq!(g.ps(), 2);
}

#[test]
fn clock_freq_new_is_uncalibrated() {
    let f = ClockFreq::new();
    assert_eq!((f.hz(), f.ms(), f.us(), f.ns(), f.ps()), (0, 0, 0, 0, 0));
}

#[test]
fn calc_freq_scales_a_100ms_sample() {
    assert_eq!(calc_freq_blocking(100, 350), 2_500);
    assert_eq!(uefi_async::util::calc_freq_blocking(0, 7), 70);
}

#[test]
fn init_clock_freq_scales_a_50ms_sample() {
    let mut f = ClockFreq::new();
    assert_eq!(init_clock_freq(1_000, 150_001_000, &mut f), 3_000_000_000);
    assert_eq!(f.hz(), 3_000_000_000);
    assert_eq!(f.ms(), 3_000_000);
}

#[test]
fn yield_is_pending_once() {
    let mut y: _Yield = Yield.into_future();
    assert_eq!(y.poll(), Poll::Pending);
    assert_eq!(y.poll(), Poll::Ready(()));
    assert_eq!(y.poll(), Poll::Ready(()));
}

#[test]
fn skip_counts_cycles_down() {
    let mut s = Skip(2);
    assert_eq!(s.poll(), Poll::Pending);
    assert_eq!(s.poll(), Poll::Pending);
    assert_eq!(s.poll(), Poll::Ready(()));
    assert_eq!(s.0, 0);
}

#[test]
fn pacer_repeat_waits_once_per_period() {
    let mut p = Pacer::new(2);
    assert_eq!(p.repeat(), Pace::Go);
    assert_eq!(p.repeat(), Pace::Yield);
    assert_eq!(p.repeat(), Pace::Go);
    assert_eq!(p.repeat(), Pace::Yield);
    let mut q = Pacer::new(60);
    let mut waits = 0;
    for i in 1..=180 {
        if q.repeat() != Pace::Go {
            waits += 1;
            assert_eq!(i % 60, 0);
        }
    }
    assert_eq!(waits, 3);
}

#[test]
fn pacer_throttle_stays_out() {
    let mut p = Pacer::new(2);
    assert_eq!(p.throttle(), Pace::Go);
    assert_eq!(p.throttle(), Pace::Yield);
    assert_eq!(p.throttle(), Pace::Yield);
    assert_eq!(p.throttle(), Pace::Yield);
}

#[test]
fn pacer_burst_skips() {
    let mut p = Pacer::new(0);
    assert_eq!(p.burst(3), Pace::Skip(3));
    assert_eq!(p.step(0, false), Pace::Yield);
    p.count_update(2);
    assert_eq!(p.burst(4), Pace::Skip(4));
    assert_eq!(p.burst(4), Pace::Go);
    assert_eq!(p.burst(4), Pace::Skip(4));
}

#[test]
fn pacer_count_update_takes_effect_at_reload() {
    let mut p = Pacer::new(3);
    assert_eq!(p.repeat(), Pace::Go);
    p.count_update(1);
    assert_eq!(p.repeat(), Pace::Go);
    assert_eq!(p.repeat(), Pace::Yield);
    assert_eq!(p.repeat(), Pace::Yield);
    assert_eq!(p.repeat(), Pace::Yield);
}

#[test]
fn skip_is_pending_n_times() {
    let mut s = Skip(5);
    for _ in 0..5 {
        assert_eq!(s.poll(), Poll::Pending);
    }
    assert_eq!(s.poll(), Poll::Ready(()));
}

#[test]
fn signal_is_taken_once() {
    let mut s = Signal::new();
    assert!(!s.is_triggered());
    assert_eq!(s.wait(), Poll::Pending);
    s.signal(5u32);
    assert!(s.is_triggered());
    assert_eq!(s.wait(), Poll::Ready(5));
    assert_eq!(s.wait(), Poll::Pending);
}

#[test]
fn unsafe_signal_last_write_wins() {
    let mut s = UnsafeSignal::new();
    s.signal(1u8);
    s.signal(2u8);
    assert!(s.is_triggered());
    assert_eq!(s.wait(), Poll::Ready(2));
    assert!(!s.is_triggered());
}

#[test]
fn multi_core_signal_reset_on_read() {
    let mut s = MultiCoreSignal::new();
    assert_eq!(s.wait(), Poll::Pending);
    s.signal(10u64);
    s.signal(11u64);
    assert_eq!(s.wait(), Poll::Ready(11));
    assert_eq!(s.wait(), Poll::Pending);
    s.signal(12u64);
    s.reset();
    assert_eq!(s.wait(), Poll::Pending);
}

#[test]
fn poll_predicates() {
    assert!(Poll::Ready(1).is_ready());
    assert!(!Poll::Ready(1).is_pending());
    assert!(Poll::<u8>::Pending.is_pending());
}

#[test]
fn sleep_ends_at_its_target() {
    let s = sleep_ms(5, 1_000, 100);
    assert_eq!(s.target_tsc, 5_100);
    assert_eq!(s.poll(5_099), Poll::Pending);
    assert_eq!(s.poll(5_100), Poll::Ready(()));
    assert_eq!(calibrate_tsc(0, 1_005), 100);
}

#[test]
fn signal_poll_takes_the_value_then_is_pending() {
    let mut s = Signal::new();
    assert_eq!(s.wait(), Poll::<u32>::Pending);
    assert!(!s.is_triggered());
    s.signal(7u32);
    assert!(s.is_triggered());
    assert_eq!(s.wait(), Poll::Ready(7));
    assert!(!s.is_triggered());
    assert_eq!(s.wait(), Poll::Pending);
}

#[test]
fn unsafe_signal_poll_takes_the_value_then_is_pending() {
    let mut u = UnsafeSignal::new();
    assert_eq!(u.wait(), Poll::<u8>::Pending);
    u.signal(3u8);
    assert_eq!(u.wait(), Poll::Ready(3));
    assert!(!u.is_triggered());
    assert_eq!(u.wait(), Poll::Pending);
}
