use std::cell::Cell;
use std::rc::Rc;
use uefi_async::executor::{init_executor, new_global_queues, schedule_task, Executor, MAX_CORES, QUEUE_SIZE};
use uefi_async::poll::{Poll, Pollable};
use uefi_async::task::{TaskPool, TaskSlot, SLOT_EMPTY, SLOT_OCCUPIED};

#[derive(Debug)]
struct Countdown {
    left: u32,
    polls: Rc<Cell<u32>>,
}

fn countdown(left: u32) -> (Countdown, Rc<Cell<u32>>) {
    let polls = Rc::new(Cell::new(0));
    (Countdown { left, polls: polls.clone() }, polls)
}

impl Pollable for Countdown {
    type Output = ();

    /// The steps of this computation are not described.
    fn step(self, _next: Self, _r: Poll<Self::Output>) -> bool {
        true
    }

    fn poll(&mut self) -> Poll<()> {
        self.polls.set(self.polls.get() + 1);
        if self.left == 0 {
            Poll::Ready(())
        } else {
            self.left -= 1;
            Poll::Pending
        }
    }
}

#[test]
fn global_queues_start_empty() {
    let mut queues = new_global_queues();
    assert_eq!(queues.len(), MAX_CORES);
    for q in queues.iter_mut() {
        assert!(q.is_empty());
        assert_eq!(q.spare_capacity(), QUEUE_SIZE);
    }
}

#[test]
fn init_executor_steals_from_every_other_core() {
    let e = init_executor(1);
    assert_eq!(e.core_id, 1);
    assert_eq!(e.stealers, vec![0, 2, 3]);
    assert_eq!(init_executor(0).stealers, vec![1, 2, 3]);
}

#[test]
fn schedule_task_uses_the_first_queue_with_room() {
    let mut queues = new_global_queues();
    for i in 0..QUEUE_SIZE {
        schedule_task(&mut queues, i);
    }
    assert_eq!(queues[0].spare_capacity(), 0);
    schedule_task(&mut queues, 999);
    assert_eq!(queues[1].pop(), Some(999));
    assert_eq!(queues[0].pop(), Some(QUEUE_SIZE - 1));
}

#[test]
fn next_task_prefers_the_own_queue() {
    let mut queues = new_global_queues();
    queues[0].push(1).unwrap();
    queues[0].push(2).unwrap();
    queues[2].push(9).unwrap();
    let e = init_executor(0);
    assert_eq!(e.next_task(&mut queues), Some(2));
    assert_eq!(e.next_task(&mut queues), Some(1));
    assert_eq!(e.next_task(&mut queues), Some(9));
    assert_eq!(e.next_task(&mut queues), None);
}

#[test]
fn next_task_steals_half_rounded_up() {
    let mut queues = new_global_queues();
    for i in 1..=3 {
        queues[2].push(i).unwrap();
    }
    let e = init_executor(0);
    assert_eq!(e.next_task(&mut queues), Some(2));
    assert_eq!(queues[0].pop(), Some(1));
    assert_eq!(queues[2].pop(), Some(3));
    assert!(queues[2].is_empty());
}

#[test]
fn spawn_task_fills_a_slot_and_queues_it() {
    let mut queues = new_global_queues();
    let mut pool: TaskPool<Countdown, 2> = TaskPool::new();
    let (a, _) = countdown(0);
    let (b, _) = countdown(0);
    let (c, _) = countdown(0);
    assert!(queues[0].spawn_task(&mut pool, a).is_ok());
    assert!(queues[0].spawn_task(&mut pool, b).is_ok());
    assert_eq!(pool.0[0].header.occupied, SLOT_OCCUPIED);
    assert_eq!(pool.0[1].header.occupied, SLOT_OCCUPIED);
    assert!(queues[0].spawn_task(&mut pool, c).is_err());
    assert_eq!(queues[0].pop(), Some(1));
    assert_eq!(queues[0].pop(), Some(0));
}

#[test]
fn run_step_polls_and_frees_finished_tasks() {
    let mut queues = new_global_queues();
    let mut pool: TaskPool<Countdown, 2> = TaskPool::new();
    let (a, pa) = countdown(0);
    queues[0].spawn_task(&mut pool, a).unwrap();
    let e = init_executor(0);
    assert!(e.run_step(&mut queues, &mut pool));
    assert_eq!(pa.get(), 1);
    assert_eq!(pool.0[0].header.occupied, SLOT_EMPTY);
    assert!(pool.0[0].future.is_none());
    assert!(!e.run_step(&mut queues, &mut pool));
}

#[test]
fn run_step_on_another_core_steals_the_task() {
    let mut queues = new_global_queues();
    let mut pool: TaskPool<Countdown, 1> = TaskPool::new();
    let (a, pa) = countdown(3);
    queues[3].spawn_task(&mut pool, a).unwrap();
    let e = Executor::new(1, vec![3]);
    assert!(e.run_step(&mut queues, &mut pool));
    assert_eq!(pa.get(), 1);
    assert_eq!(pool.0[0].header.occupied, SLOT_OCCUPIED);
}

#[test]
fn poll_wrapper_honours_the_wake_policy() {
    let (a, pa) = countdown(5);
    let mut slot = TaskSlot::new();
    slot.future = Some(a);
    slot.header.occupied = SLOT_OCCUPIED;
    slot.header.control = 0x01;
    assert_eq!(slot.poll_wrapper(), Poll::Pending);
    assert_eq!(pa.get(), 0);
    slot.header.control = 0x81;
    assert_eq!(slot.poll_wrapper(), Poll::Pending);
    assert_eq!(pa.get(), 1);
    assert_eq!(slot.header.control, 0x01);
    slot.header.control = 0x02;
    assert_eq!(slot.poll_wrapper(), Poll::Pending);
    assert_eq!(pa.get(), 2);
}
