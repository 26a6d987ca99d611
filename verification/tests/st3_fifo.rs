use uefi_async::st3::fifo::{Queue, Worker};
use uefi_async::st3::StealError;

fn worker() -> Worker<u32, 4> {
    Worker::new(Queue::new())
}

fn drain_all(w: &mut Worker<u32, 4>) -> Vec<u32> {
    let mut out = Vec::new();
    while let Some(x) = w.pop() {
        out.push(x);
    }
    out
}

#[test]
fn fifo_pop_gives_oldest_first() {
    let mut w = worker();
    assert_eq!(w.push(1), Ok(()));
    assert_eq!(w.push(2), Ok(()));
    assert_eq!(w.push(3), Ok(()));
    assert_eq!(w.pop(), Some(1));
    assert_eq!(w.pop(), Some(2));
    assert_eq!(w.pop(), Some(3));
    assert_eq!(w.pop(), None);
}

#[test]
fn fifo_first_in_first_out_after_push() {
    let mut w = worker();
    w.push(7).unwrap();
    w.push(8).unwrap();
    assert_eq!(w.pop(), Some(7));
    assert_eq!(drain_all(&mut w), vec![8]);
}

#[test]
fn fifo_holds_owned_items() {
    let mut w: Worker<String, 2> = Worker::new(Queue::new());
    w.push("a".to_string()).unwrap();
    w.push("b".to_string()).unwrap();
    assert_eq!(w.push("c".to_string()), Err("c".to_string()));
    assert_eq!(w.pop(), Some("a".to_string()));
    assert_eq!(w.pop(), Some("b".to_string()));
    assert_eq!(w.pop(), None);
}

#[test]
fn fifo_capacity_and_spare_capacity() {
    let mut w = worker();
    assert_eq!(w.capacity(), 4);
    assert_eq!(w.spare_capacity(), 4);
    assert!(w.is_empty());
    w.push(1).unwrap();
    w.push(2).unwrap();
    assert_eq!(w.spare_capacity(), 2);
    assert!(!w.is_empty());
}

#[test]
fn fifo_push_on_full_queue_gives_item_back() {
    let mut w = worker();
    for i in 0..4 {
        w.push(i).unwrap();
    }
    assert_eq!(w.push(42), Err(42));
}

#[test]
fn fifo_wraps_around_the_buffer() {
    let mut w = worker();
    for round in 0..10u32 {
        w.push(round).unwrap();
        w.push(round + 100).unwrap();
        assert_eq!(w.pop(), Some(round));
        assert_eq!(w.pop(), Some(round + 100));
    }
    assert!(w.is_empty());
}

#[test]
fn fifo_extend_stops_at_capacity() {
    let mut w = worker();
    w.push(1).unwrap();
    w.extend(vec![2, 3, 4, 5, 6]);
    assert_eq!(drain_all(&mut w), vec![1, 2, 3, 4]);
}

#[test]
fn fifo_steal_moves_oldest_items() {
    let mut src = worker();
    let mut dest = worker();
    for i in 1..=4 {
        src.push(i).unwrap();
    }
    let stealer = src.stealer();
    assert_eq!(stealer.steal(&mut src, &mut dest, |n| n / 2), Ok(2));
    assert_eq!(drain_all(&mut dest), vec![1, 2]);
    assert_eq!(drain_all(&mut src), vec![3, 4]);
}

#[test]
fn fifo_steal_conserves_items() {
    let mut src = worker();
    let mut dest = worker();
    for i in 1..=3 {
        src.push(i).unwrap();
    }
    dest.push(9).unwrap();
    let stealer = src.stealer();
    assert_eq!(stealer.steal(&mut src, &mut dest, |n| n), Ok(3));
    assert!(src.is_empty());
    assert_eq!(drain_all(&mut dest), vec![9, 1, 2, 3]);
}

#[test]
fn fifo_steal_capped_by_destination_room() {
    let mut src = worker();
    let mut dest = worker();
    for i in 1..=4 {
        src.push(i).unwrap();
    }
    dest.push(10).unwrap();
    dest.push(20).unwrap();
    dest.push(30).unwrap();
    let stealer = src.stealer();
    assert_eq!(stealer.steal(&mut src, &mut dest, |n| n), Ok(1));
    assert_eq!(drain_all(&mut dest), vec![10, 20, 30, 1]);
}

#[test]
fn fifo_steal_from_empty_queue_fails() {
    let mut src = worker();
    let mut dest = worker();
    let stealer = src.stealer();
    assert_eq!(stealer.steal(&mut src, &mut dest, |n| n), Err(StealError::Empty));
}

#[test]
fn fifo_steal_and_pop_returns_newest_stolen() {
    let mut src = worker();
    let mut dest = worker();
    for i in 1..=4 {
        src.push(i).unwrap();
    }
    let stealer = src.stealer();
    assert_eq!(stealer.steal_and_pop(&mut src, &mut dest, |n| n - 1), Ok((3, 2)));
    assert_eq!(drain_all(&mut dest), vec![1, 2]);
    assert_eq!(drain_all(&mut src), vec![4]);
}

#[test]
fn fifo_steal_and_pop_into_full_destination_moves_nothing() {
    let mut src = worker();
    let mut dest = worker();
    for i in 1..=4 {
        src.push(i).unwrap();
        dest.push(i * 10).unwrap();
    }
    let stealer = src.stealer();
    assert_eq!(stealer.steal_and_pop(&mut src, &mut dest, |n| n), Ok((1, 0)));
    assert_eq!(drain_all(&mut src), vec![2, 3, 4]);
}

#[test]
fn fifo_drain_blocks_other_steals() {
    let mut w = worker();
    let mut dest = worker();
    for i in 1..=3 {
        w.push(i).unwrap();
    }
    let mut drain = w.drain(|n| n - 1).unwrap();
    assert_eq!(drain.size_hint(), (2, Some(2)));
    let stealer = w.stealer();
    assert_eq!(stealer.steal(&mut w, &mut dest, |n| n), Err(StealError::Busy));
    assert!(matches!(w.drain(|n| n), Err(StealError::Busy)));
    assert_eq!(drain.next(&mut w), Some(1));
    assert_eq!(drain.next(&mut w), Some(2));
    assert_eq!(drain.next(&mut w), None);
    assert_eq!(stealer.steal(&mut w, &mut dest, |n| n), Ok(1));
    assert_eq!(dest.pop(), Some(3));
}

#[test]
fn fifo_pop_during_drain() {
    let mut w = worker();
    for i in 1..=4 {
        w.push(i).unwrap();
    }
    let mut drain = w.drain(|_| 2).unwrap();
    assert_eq!(w.pop(), Some(3));
    assert_eq!(drain.next(&mut w), Some(1));
    assert_eq!(w.pop(), Some(4));
    assert_eq!(w.pop(), None);
    assert_eq!(drain.next(&mut w), Some(2));
    assert_eq!(drain.next(&mut w), None);
    assert!(w.is_empty());
    assert_eq!(w.spare_capacity(), 4);
}

#[test]
fn fifo_push_during_drain() {
    let mut w = worker();
    for i in 1..=2 {
        w.push(i).unwrap();
    }
    let mut drain = w.drain(|n| n).unwrap();
    assert_eq!(w.spare_capacity(), 2);
    w.push(5).unwrap();
    w.push(6).unwrap();
    assert_eq!(w.push(7), Err(7));
    assert_eq!(drain.finish(&mut w), vec![1, 2]);
    assert_eq!(w.spare_capacity(), 2);
    assert_eq!(drain_all(&mut w), vec![5, 6]);
}

#[test]
fn fifo_drain_of_empty_queue_fails() {
    let mut w = worker();
    assert!(matches!(w.drain(|n| n), Err(StealError::Empty)));
    w.push(1).unwrap();
    assert!(matches!(w.drain(|_| 0), Err(StealError::Empty)));
}

#[test]
fn fifo_spare_capacity_is_the_run_of_accepted_pushes() {
    let mut w = worker();
    w.push(1).unwrap();
    w.pop().unwrap();
    w.push(2).unwrap();
    let room = w.spare_capacity();
    assert_eq!(room, 3);
    for i in 0..room as u32 {
        assert_eq!(w.push(10 + i), Ok(()));
    }
    assert_eq!(w.push(99), Err(99));
    assert_eq!(drain_all(&mut w), vec![2, 10, 11, 12]);
}

#[test]
fn fifo_pop_after_a_run_of_pushes_keeps_push_order() {
    let mut w: Worker<u32, 8> = Worker::new(Queue::new());
    w.push(100).unwrap();
    w.push(101).unwrap();
    assert_eq!(w.pop(), Some(100));
    assert_eq!(w.pop(), Some(101));
    for x in 0..8u32 {
        assert_eq!(w.push(x), Ok(()));
    }
    for x in 0..8u32 {
        assert_eq!(w.pop(), Some(x));
    }
    assert_eq!(w.pop(), None);
}
