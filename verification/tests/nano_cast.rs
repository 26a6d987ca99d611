use std::cell::Cell;
use std::rc::Rc;
use uefi_async::nano_cast::Executor;
use uefi_async::poll::{Poll, Pollable};

#[derive(Debug)]
struct Countdown {
    left: u32,
    polls: Rc<Cell<u32>>,
}

fn countdown(left: u32) -> (Countdown, Rc<Cell<u32>>) {
    let polls = Rc::new(Cell::new(0));
    (Countdown { left, polls: polls.clone() }, polls)
}

impl Pollable for Countdown {
    type Output = ();

    /// The steps of this computation are not described.
    fn step(self, _next: Self, _r: Poll<Self::Output>) -> bool {
        true
    }

    fn poll(&mut self) -> Poll<()> {
        self.polls.set(self.polls.get() + 1);
        if self.left == 0 {
            Poll::Ready(())
        } else {
            self.left -= 1;
            Poll::Pending
        }
    }
}

#[test]
fn slot_executor_polls_at_the_task_frequency() {
    let mut e: Executor<Countdown, 2> = Executor::new();
    let (c, polls) = countdown(100);
    e.add_task(c, 10, 1_000, 0);
    e.run_pass(0);
    assert_eq!(polls.get(), 1);
    e.run_pass(99);
    assert_eq!(polls.get(), 1);
    e.run_pass(100);
    assert_eq!(polls.get(), 2);
}

#[test]
fn slot_executor_frees_finished_slots() {
    let mut e: Executor<Countdown, 1> = Executor::new();
    let (a, pa) = countdown(0);
    e.add_task(a, 1, 1, 0);
    e.run_pass(0);
    assert_eq!(pa.get(), 1);
    let (b, pb) = countdown(5);
    e.add_task(b, 1, 1, 0);
    e.run_pass(0);
    e.run_pass(1);
    assert_eq!(pa.get(), 1);
    assert_eq!(pb.get(), 2);
}

#[test]
fn slot_executor_drops_tasks_when_full() {
    let mut e: Executor<Countdown, 1> = Executor::new();
    let (a, pa) = countdown(10);
    let (b, pb) = countdown(10);
    e.add_task(a, 1, 1, 0);
    e.add_task(b, 1, 1, 0);
    e.run_pass(0);
    assert_eq!(pa.get(), 1);
    assert_eq!(pb.get(), 0);
}

#[test]
fn slot_executor_waits_for_the_first_due_tick() {
    let mut e: Executor<Countdown, 2> = Executor::new();
    let (a, pa) = countdown(10);
    e.add_task(a, 2, 100, 40);
    e.run_pass(39);
    assert_eq!(pa.get(), 0);
    e.run_pass(40);
    assert_eq!(pa.get(), 1);
    e.run_pass(89);
    assert_eq!(pa.get(), 1);
    e.run_pass(90);
    assert_eq!(pa.get(), 2);
}

#[test]
fn slot_executor_pass_fits_detects_overflow() {
    let mut e: Executor<Countdown, 2> = Executor::new();
    let (a, _) = countdown(1);
    e.add_task(a, 1, 100, 0);
    assert!(e.pass_fits(u64::MAX - 100));
    assert!(!e.pass_fits(u64::MAX - 99));
    let mut f: Executor<Countdown, 1> = Executor::new();
    let (b, _) = countdown(1);
    f.add_task(b, 1, 100, u64::MAX);
    assert!(f.pass_fits(u64::MAX - 1));
}
