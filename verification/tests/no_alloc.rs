use uefi_async::no_alloc::channel::{channel, send_outcome};
use uefi_async::no_alloc::config::{ExecutorConfig, LargeConfig, SmallConfig};
use uefi_async::no_alloc::executor::Executor;
use uefi_async::no_alloc::task::{State, StaticFuture, TaskHeader, TaskPool, TaskSlot};
use uefi_async::st3::lifo::{Queue, Worker};
use uefi_async::no_alloc::waker::{wake, WakePolicy, POLICY_MASK, WAKE_BIT};
use uefi_async::poll::Poll;

#[test]
fn wake_policy_bits_roundtrip() {
    for p in [WakePolicy::PollOnly, WakePolicy::InterruptOnly, WakePolicy::Hybrid] {
        assert_eq!(WakePolicy::unpack(p.bits()), (p, false));
        assert_eq!(WakePolicy::unpack(p.bits() | WAKE_BIT), (p, true));
    }
    assert_eq!(WakePolicy::Hybrid.bits(), 2);
    assert_eq!(WakePolicy::unpack(0x81), (WakePolicy::InterruptOnly, true));
    assert_eq!(POLICY_MASK, 3);
}

#[test]
fn wake_policy_unpack_ignores_middle_bits() {
    for middle in [0u8, 0x04, 0x28, 0x7c] {
        assert_eq!(WakePolicy::unpack(middle | 0x02), (WakePolicy::Hybrid, false));
        assert_eq!(WakePolicy::unpack(middle | 0x81), (WakePolicy::InterruptOnly, true));
        assert_eq!(WakePolicy::unpack(middle), (WakePolicy::PollOnly, false));
    }
}

#[test]
fn wake_policy_decides_polling() {
    assert!(WakePolicy::PollOnly.should_poll(false));
    assert!(WakePolicy::Hybrid.should_poll(false));
    assert!(!WakePolicy::InterruptOnly.should_poll(false));
    assert!(WakePolicy::InterruptOnly.should_poll(true));
}

#[test]
fn state_encoding_roundtrip() {
    for s in [State::Free, State::Initialized, State::Ready, State::Running, State::Yielded, State::Waiting, State::Unreachable] {
        assert_eq!(State::from_u8(s.to_u8()), s);
    }
    assert_eq!(State::Running.to_u8(), 3);
    assert_eq!(State::from_u8(5), State::Waiting);
    assert_eq!(State::from_u8(200), State::Unreachable);
}

#[test]
fn task_pool_init_takes_the_first_free_slot() {
    let mut pool: TaskPool<u32, 3> = TaskPool::new();
    assert_eq!(pool.0.len(), 3);
    assert_eq!(pool.init(|| 11), 0);
    assert_eq!(pool.init(|| 22), 1);
    assert_eq!(pool.0[0].future.0, Some(11));
    assert_eq!(pool.0[1].future.0, Some(22));
    assert_eq!(pool.0[1].header.state, State::Initialized.to_u8());
    assert_eq!(pool.0[2].header.state, State::Free.to_u8());
    pool.0[0].header.state = State::Free.to_u8();
    assert_eq!(pool.init(|| 33), 0);
    assert_eq!(pool.0[0].future.0, Some(33));
}

#[test]
fn executor_configs() {
    assert_eq!(SmallConfig::max_cores(), 4);
    assert_eq!(SmallConfig::queue_size(), 256);
    assert_eq!(LargeConfig::max_cores(), 16);
    assert_eq!(LargeConfig::queue_size(), 128);
}

#[test]
fn static_channel_try_send_and_recv() {
    let queue: nblfq::Queue<u32, 2> = nblfq::Queue::new();
    let (tx, rx) = channel(&queue);
    assert_eq!(tx.try_send(1), Ok(()));
    assert_eq!(tx.try_send(2), Ok(()));
    assert_eq!(tx.try_send(3), Err(3));
    assert_eq!(rx.try_recv(), Some(1));
    assert_eq!(rx.try_recv(), Some(2));
    assert_eq!(rx.try_recv(), None);
}

#[test]
fn static_channel_futures_poll_until_done() {
    let queue: nblfq::Queue<u32, 1> = nblfq::Queue::new();
    let (tx, rx) = channel(&queue);
    let mut recv = rx.recv();
    assert_eq!(recv.poll(), Poll::Pending);
    assert_eq!(tx.try_send(5), Ok(()));
    let mut send = tx.send(6);
    assert_eq!(send.poll(), Poll::Pending);
    assert_eq!(recv.poll(), Poll::Ready(5));
    assert_eq!(send.poll(), Poll::Ready(Ok(())));
    assert_eq!(rx.try_recv(), Some(6));
}

#[test]
fn static_future_is_made_on_first_use_and_replaced_later() {
    let mut s: StaticFuture<u32> = StaticFuture::new();
    assert_eq!(s.0, None);
    s.init(|| 4);
    assert_eq!(*s.get(), 4);
    let r = s.spawn(|| 9);
    *r += 1;
    assert_eq!(*s.get(), 10);
    s.init(|| 1);
    assert_eq!(s.0, Some(1));
}

struct Steps(u32);

impl uefi_async::poll::Pollable for Steps {
    type Output = ();
    fn step(self, _next: Self, _r: Poll<Self::Output>) -> bool {
        true
    }

    fn poll(&mut self) -> Poll<()> {
        if self.0 == 0 {
            Poll::Ready(())
        } else {
            self.0 -= 1;
            Poll::Pending
        }
    }
}

#[test]
fn execute_moves_the_task_through_its_states() {
    let exec: Executor<4> = Executor { worker: Worker::new(Queue::new()) };
    let mut slot = TaskSlot {
        header: TaskHeader { control: 0x81, state: State::Ready.to_u8() },
        future: StaticFuture(Some(Steps(1))),
    };
    assert_eq!(exec.execute(&mut slot), Poll::Pending);
    assert_eq!(State::from_u8(slot.header.state), State::Yielded);
    assert_eq!(exec.execute(&mut slot), Poll::Ready(()));
    assert_eq!(State::from_u8(slot.header.state), State::Free);
    assert_eq!(slot.header.control, 0x81);
}

#[test]
fn wake_marks_ready_and_queues_on_the_named_core() {
    let mut queues = uefi_async::executor::new_global_queues();
    let mut header = TaskHeader { control: 2, state: State::Waiting.to_u8() };
    wake(&mut header, 17, &mut queues);
    assert_eq!(State::from_u8(header.state), State::Ready);
    assert_eq!(header.control, 2);
    assert_eq!(queues[2].pop(), Some(17));
    assert!(queues[0].is_empty() && queues[1].is_empty() && queues[3].is_empty());
}

#[test]
fn task_pool_spawn_queues_the_slot() {
    let mut pool: TaskPool<u32, 2> = TaskPool::new();
    let mut w: Worker<4> = Worker::new(Queue::new());
    assert_eq!(pool.spawn(&mut w, || 5), 0);
    assert_eq!(pool.spawn(&mut w, || 6), 1);
    assert_eq!(w.pop(), Some(1));
    assert_eq!(w.pop(), Some(0));
    assert_eq!(pool.0[1].future.0, Some(6));
}

#[test]
fn send_outcome_keeps_a_refused_item() {
    assert_eq!(send_outcome::<u8>(Ok(())), (Poll::Ready(Ok(())), None));
    assert_eq!(send_outcome::<u8>(Err(4)), (Poll::Pending, Some(4)));
}
