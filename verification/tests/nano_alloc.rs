use std::cell::Cell;
use std::rc::Rc;
use uefi_async::common::tick::ClockFreq;
use uefi_async::nano_alloc::channel::multiple::{bounded_channel, oneshot, unbounded_channel};
use uefi_async::nano_alloc::channel::ready_or_pending;
use uefi_async::nano_alloc::channel::single::ChannelQueue;
use uefi_async::nano_alloc::control::{select_outcome, try_join_step, Either, Join, JoinAll, Select, TryJoin};
use uefi_async::nano_alloc::executor::Executor;
use uefi_async::nano_alloc::task::TaskNode;
use uefi_async::nano_alloc::time::{saturating_mul, timeout_outcome, Timeout, WaitTimer, _Timeout, _WaitTimer};
use uefi_async::poll::{Poll, Pollable};

/// A computation that finishes after `left` pending polls, counting its
/// polls.
#[derive(Debug)]
struct Countdown {
    left: u32,
    polls: Rc<Cell<u32>>,
}

impl Countdown {
    fn new(left: u32) -> (Self, Rc<Cell<u32>>) {
        let polls = Rc::new(Cell::new(0));
        (Countdown { left, polls: polls.clone() }, polls)
    }
}

impl Pollable for Countdown {
    type Output = ();

    /// The steps of this computation are not described.
    fn step(self, _next: Self, _r: Poll<Self::Output>) -> bool {
        true
    }

    fn poll(&mut self) -> Poll<()> {
        self.polls.set(self.polls.get() + 1);
        if self.left == 0 {
            Poll::Ready(())
        } else {
            self.left -= 1;
            Poll::Pending
        }
    }
}

/// A computation that finishes at once with a value.
struct Value(u32);

impl Pollable for Value {
    type Output = u32;

    /// The steps of this computation are not described.
    fn step(self, _next: Self, _r: Poll<Self::Output>) -> bool {
        true
    }

    fn poll(&mut self) -> Poll<u32> {
        Poll::Ready(self.0)
    }
}

/// A computation that never finishes.
struct Never;

impl Pollable for Never {
    type Output = u32;

    /// The steps of this computation are not described.
    fn step(self, _next: Self, _r: Poll<Self::Output>) -> bool {
        true
    }

    fn poll(&mut self) -> Poll<u32> {
        Poll::Pending
    }
}

/// A fallible computation that finishes at once.
struct Outcome(Result<(), &'static str>);

impl Pollable for Outcome {
    type Output = Result<(), &'static str>;

    /// The steps of this computation are not described.
    fn step(self, _next: Self, _r: Poll<Self::Output>) -> bool {
        true
    }

    fn poll(&mut self) -> Poll<Result<(), &'static str>> {
        Poll::Ready(self.0)
    }
}

#[test]
fn timeout_fails_once_the_deadline_is_reached() {
    let mut t = Timeout::new(Never, 10, 100);
    assert_eq!(t.poll(109), Poll::Pending);
    assert_eq!(t.poll(110), Poll::Ready(Err(())));
}

#[test]
fn timeout_passes_the_value_on() {
    let mut t = Timeout::new_pin(Value(7), 10, 100);
    assert_eq!(t.poll(105), Poll::Ready(Ok(7)));
    let mut u = Value(8).timeout(5, 0);
    assert_eq!(u.poll(4), Poll::Ready(Ok(8)));
}

#[test]
fn timeout_deadline_saturates() {
    let mut t = Timeout::new(Value(1), 10, u64::MAX - 5);
    assert_eq!(t.poll(u64::MAX - 1), Poll::Ready(Ok(1)));
    let mut u = Timeout::new(Value(1), 10, u64::MAX - 5);
    assert_eq!(u.poll(u64::MAX), Poll::Ready(Err(())));
}

#[test]
fn wait_timer_expiry() {
    let t = WaitTimer::until(7);
    assert_eq!(t.0, 7);
    assert!(!t.is_expired(6));
    assert!(t.is_expired(7));
    assert_eq!(t.poll(6), Poll::Pending);
    assert_eq!(t.poll(8), Poll::Ready(()));
    assert_eq!(WaitTimer::after(10, 5).0, 15);
    assert_eq!(WaitTimer::after(10, u64::MAX).0, 9);
}

#[test]
fn wait_timer_units() {
    let f = ClockFreq::from_hz(1_000);
    assert_eq!(WaitTimer::from_s(2, &f, 5).0, 2_005);
    assert_eq!(WaitTimer::from_ms(3, &f, 0).0, 3);
    assert_eq!(WaitTimer::from_us(7, &f, 0).0, 7);
    assert_eq!(WaitTimer::from_ns(7, &f, 0).0, 7);
    assert_eq!(WaitTimer::from_ps(7, &f, 0).0, 0);
    assert_eq!(WaitTimer::from_min(1, &f, 0).0, 60_000);
    assert_eq!(WaitTimer::from_hour(1, &f, 0).0, 3_600_000);
    assert_eq!(WaitTimer::from_day(1, &f, 0).0, 86_400_000);
    assert_eq!(WaitTimer::from_week(1, &f, 0).0, 604_800_000);
    assert_eq!(WaitTimer::from_month(1, &f, 0).0, 2_592_000_000);
    assert_eq!(WaitTimer::from_year(1, &f, 0).0, 31_536_000_000);
    assert_eq!(WaitTimer::from_fps(10, &f, 0).0, 100);
    assert_eq!(WaitTimer::from_fps(0, &f, 0).0, 1_000);
}

#[test]
fn wait_timer_saturates_then_wraps() {
    let f = ClockFreq::from_hz(1_000);
    assert_eq!(WaitTimer::from_year(u64::MAX, &f, 0).0, u64::MAX);
    assert_eq!(WaitTimer::from_s(u64::MAX, &f, 1).0, 0);
    assert_eq!(saturating_mul(u64::MAX, 2), u64::MAX);
    assert_eq!(saturating_mul(3, 4), 12);
}

#[test]
fn wait_timer_unit_methods() {
    let f = ClockFreq::from_hz(1_000);
    assert_eq!(2u64.s(&f, 0).0, 2_000);
    assert_eq!(20u64.fps(&f, 0).0, 50);
    assert_eq!(2u64.hz(&f, 0).0, 500);
    assert_eq!(5u64.hz(&f, 7).0, 207);
    assert_eq!(0u64.hz(&f, 0).0, 1_000);
    assert_eq!(5u64.ms(&f, 1).0, 6);
    assert_eq!(1u64.mins(&f, 0).0, 60_000);
    assert_eq!(1u64.year(&f, 0).0, 31_536_000_000);
}

#[test]
fn join_waits_for_both() {
    let (a, pa) = Countdown::new(0);
    let (b, pb) = Countdown::new(2);
    let mut j = Join { head: a, tail: b, head_done: false, tail_done: false };
    assert_eq!(j.poll(), Poll::Pending);
    assert_eq!(j.poll(), Poll::Pending);
    assert_eq!(j.poll(), Poll::Ready(()));
    assert_eq!(pa.get(), 1);
    assert_eq!(pb.get(), 3);
}

#[test]
fn try_join_passes_the_first_error_on() {
    let mut j = TryJoin { head: Outcome(Err("boom")), tail: Outcome(Ok(())), head_done: false, tail_done: false };
    assert_eq!(j.poll(), Poll::Ready(Err("boom")));
    let mut k = TryJoin { head: Outcome(Ok(())), tail: Outcome(Ok(())), head_done: false, tail_done: false };
    assert_eq!(k.poll(), Poll::Ready(Ok(())));
}

#[test]
fn join_all_collects_both_results() {
    let mut j = JoinAll::new(Value(1), Value(2));
    assert_eq!(j.poll(), Poll::Ready((1, 2)));
}

#[test]
fn select_takes_the_first_to_finish() {
    let mut s = Select::new(Never, Value(3));
    assert!(matches!(s.poll(), Poll::Ready(Either::Right(3))));
    let mut t = Select::new(Value(4), Value(5));
    assert!(matches!(t.poll(), Poll::Ready(Either::Left(4))));
    let mut u = Select::new(Never, Never);
    assert!(matches!(u.poll(), Poll::Pending));
}

#[test]
fn task_node_starts_due() {
    let (c, _) = Countdown::new(0);
    let n = TaskNode::new(c, 60);
    assert_eq!(n.interval, 60);
    assert_eq!(n.next_run_time, 0);
}

#[test]
fn executor_polls_due_tasks_at_their_interval() {
    let (c, polls) = Countdown::new(100);
    let mut e = Executor::new(1_000);
    e.add(TaskNode::new(c, 10));
    e.run_step(0);
    assert_eq!(polls.get(), 1);
    e.run_step(50);
    assert_eq!(polls.get(), 1);
    e.run_step(100);
    assert_eq!(polls.get(), 2);
    e.run_step(150);
    assert_eq!(polls.get(), 2);
}

#[test]
fn executor_zero_frequency_polls_every_pass() {
    let (c, polls) = Countdown::new(100);
    let mut e = Executor::new(1_000);
    e.add(TaskNode::new(c, 0));
    e.run_step(5);
    e.run_step(5);
    e.run_step(6);
    assert_eq!(polls.get(), 3);
}

#[test]
fn executor_idle_pass_polls_nothing() {
    let (c, polls) = Countdown::new(100);
    let mut e = Executor::new(1_000);
    let mut node = TaskNode::new(c, 1);
    node.next_run_time = 500;
    e.add(node);
    e.run_step(499);
    assert_eq!(polls.get(), 0);
    e.run_step(500);
    assert_eq!(polls.get(), 1);
}

#[test]
fn executor_removes_finished_tasks_and_polls_the_rest() {
    let (a, pa) = Countdown::new(0);
    let (b, pb) = Countdown::new(100);
    let (c, pc) = Countdown::new(0);
    let mut e = Executor::new(1_000);
    e.add(TaskNode::new(c, 0)).add(TaskNode::new(b, 0)).add(TaskNode::new(a, 0));
    e.run_step(0);
    assert_eq!(pa.get(), 1);
    assert_eq!(pb.get(), 1);
    assert_eq!(pc.get(), 1);
    e.run_step(0);
    assert_eq!(pa.get(), 1);
    assert_eq!(pb.get(), 2);
    assert_eq!(pc.get(), 1);
}

#[test]
fn executor_keeps_its_frequency() {
    let e: Executor<Countdown> = Executor::new(123);
    assert_eq!(e.freq, 123);
}

#[test]
fn ready_or_pending_maps_the_taken_value() {
    assert_eq!(ready_or_pending(Some(3)), Poll::Ready(3));
    assert_eq!(ready_or_pending::<u8>(None), Poll::Pending);
}

#[test]
fn bounded_channel_gives_items_back_when_full() {
    let (tx, mut rx) = bounded_channel::channel(1);
    assert_eq!(tx.try_send(1u32), Ok(()));
    assert_eq!(tx.try_send(2u32), Err(2));
    assert_eq!(rx.poll(), Poll::Ready(1));
    assert_eq!(rx.poll(), Poll::Pending);
}

#[test]
fn unbounded_channel_in_order() {
    let (tx, mut rx) = unbounded_channel::channel();
    assert_eq!(rx.poll(), Poll::Pending);
    tx.send(1u32);
    tx.send(2u32);
    assert_eq!(rx.poll(), Poll::Ready(1));
    assert_eq!(rx.poll(), Poll::Ready(2));
    assert_eq!(rx.poll(), Poll::Pending);
}

#[test]
fn oneshot_channel_delivers_once() {
    let (tx, mut rx) = oneshot::Oneshot::new();
    assert_eq!(rx.poll(), Poll::Pending);
    tx.send(5u64);
    assert_eq!(rx.poll(), Poll::Ready(5));
    assert_eq!(rx.poll(), Poll::Pending);
}

#[test]
fn executor_step_fits_detects_overflow() {
    let (c, _) = Countdown::new(1);
    let mut e = Executor::new(1_000);
    e.add(TaskNode::new(c, 1));
    assert!(e.step_fits(0));
    assert!(e.step_fits(u64::MAX - 1_000));
    assert!(!e.step_fits(u64::MAX - 999));
}

#[test]
fn try_join_step_classifies_a_poll() {
    assert_eq!(try_join_step::<&str>(Poll::Ready(Err("e"))), Err("e"));
    assert_eq!(try_join_step::<&str>(Poll::Ready(Ok(()))), Ok(true));
    assert_eq!(try_join_step::<&str>(Poll::Pending), Ok(false));
}

#[test]
fn timeout_outcome_wraps_the_value() {
    assert_eq!(timeout_outcome(Poll::Ready(3u8)), Poll::Ready(Ok(3)));
    assert_eq!(timeout_outcome::<u8>(Poll::Pending), Poll::Pending);
}

#[test]
fn select_outcome_prefers_the_first() {
    assert!(matches!(select_outcome::<u8, u8>(Poll::Ready(1), None), Poll::Ready(Either::Left(1))));
    assert!(matches!(select_outcome::<u8, u8>(Poll::Pending, Some(Poll::Ready(2))), Poll::Ready(Either::Right(2))));
    assert!(matches!(select_outcome::<u8, u8>(Poll::Pending, Some(Poll::Pending)), Poll::Pending));
    assert!(matches!(select_outcome::<u8, u8>(Poll::Pending, None), Poll::Pending));
}

#[test]
fn cloned_senders_share_one_channel() {
    let (tx, mut rx) = bounded_channel::channel(4);
    let tx2 = tx.clone();
    assert_eq!(tx.try_send(1u32), Ok(()));
    assert_eq!(tx2.try_send(2u32), Ok(()));
    assert_eq!(rx.poll(), Poll::Ready(1));
    assert_eq!(rx.poll(), Poll::Ready(2));
    let (utx, mut urx) = unbounded_channel::channel();
    let utx2 = utx.clone();
    utx2.send(7u32);
    utx.send(8u32);
    assert_eq!(urx.poll(), Poll::Ready(7));
    assert_eq!(urx.poll(), Poll::Ready(8));
}

#[test]
fn single_core_queue_in_send_order() {
    let mut q = ChannelQueue::new();
    assert_eq!(q.poll(), Poll::<u32>::Pending);
    q.send(1u32);
    q.send(2);
    q.send(3);
    assert_eq!(q.poll(), Poll::Ready(1));
    q.send(4);
    assert_eq!(q.poll(), Poll::Ready(2));
    assert_eq!(q.poll(), Poll::Ready(3));
    assert_eq!(q.poll(), Poll::Ready(4));
    assert_eq!(q.poll(), Poll::Pending);
    let mut r: ChannelQueue<u8> = ChannelQueue::with_capacity(2);
    r.send(9);
    assert_eq!(r.poll(), Poll::Ready(9));
}

#[test]
fn channel_single_core_keeps_send_order_past_its_capacity() {
    let mut q: ChannelQueue<u32> = ChannelQueue::with_capacity(2);
    for v in 1..=5u32 {
        q.send(v);
    }
    for v in 1..=5u32 {
        assert_eq!(q.poll(), Poll::Ready(v));
    }
    assert_eq!(q.poll(), Poll::Pending);
}
