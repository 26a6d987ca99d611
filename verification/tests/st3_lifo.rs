use uefi_async::st3::lifo::{Queue, Worker};
use uefi_async::st3::{pack, unpack, StealError};

fn worker() -> Worker<4> {
    Worker::new(Queue::new())
}

#[test]
fn lifo_pop_gives_newest_first() {
    let mut w = worker();
    assert_eq!(w.push(1), Ok(()));
    assert_eq!(w.push(2), Ok(()));
    assert_eq!(w.push(3), Ok(()));
    assert_eq!(w.pop(), Some(3));
    assert_eq!(w.pop(), Some(2));
    assert_eq!(w.pop(), Some(1));
    assert_eq!(w.pop(), None);
}

#[test]
fn lifo_push_then_pop_restores() {
    let mut w = worker();
    w.push(10).unwrap();
    w.push(20).unwrap();
    assert_eq!(w.push(30), Ok(()));
    assert_eq!(w.pop(), Some(30));
    assert_eq!(w.clear(), vec![10, 20]);
}

#[test]
fn lifo_push_on_full_queue_gives_item_back() {
    let mut w = worker();
    for i in 0..4 {
        assert_eq!(w.push(i), Ok(()));
    }
    assert_eq!(w.push(99), Err(99));
    assert_eq!(w.spare_capacity(), 0);
}

#[test]
fn lifo_is_empty_and_spare_capacity() {
    let mut w = worker();
    assert!(w.is_empty());
    assert_eq!(w.spare_capacity(), 4);
    w.push(5).unwrap();
    assert!(!w.is_empty());
    assert_eq!(w.spare_capacity(), 3);
}

#[test]
fn lifo_wraps_around_the_buffer() {
    let mut w = worker();
    for round in 0..10usize {
        w.push(round).unwrap();
        w.push(round + 100).unwrap();
        assert_eq!(w.pop(), Some(round + 100));
        assert_eq!(w.pop(), Some(round));
    }
    assert!(w.is_empty());
}

#[test]
fn lifo_extend_stops_at_capacity() {
    let mut w = worker();
    w.push(1).unwrap();
    w.extend(vec![2, 3, 4, 5, 6]);
    assert_eq!(w.clear(), vec![1, 2, 3, 4]);
}

#[test]
fn lifo_steal_moves_oldest_items() {
    let mut src = worker();
    let mut dest = worker();
    for i in 1..=4 {
        src.push(i).unwrap();
    }
    let stealer = src.stealer();
    assert_eq!(stealer.steal(&mut src, &mut dest, |n| n / 2), Ok(2));
    assert_eq!(dest.pop(), Some(2));
    assert_eq!(dest.pop(), Some(1));
    assert_eq!(src.pop(), Some(4));
    assert_eq!(src.pop(), Some(3));
}

#[test]
fn lifo_steal_conserves_items() {
    let mut src = worker();
    let mut dest = worker();
    for i in 1..=3 {
        src.push(i).unwrap();
    }
    dest.push(9).unwrap();
    let stealer = src.stealer();
    assert_eq!(stealer.steal(&mut src, &mut dest, |n| n), Ok(3));
    assert!(src.is_empty());
    assert_eq!(dest.clear(), vec![9, 1, 2, 3]);
}

#[test]
fn lifo_steal_capped_by_destination_room() {
    let mut src = worker();
    let mut dest = worker();
    for i in 1..=4 {
        src.push(i).unwrap();
        if i < 4 {
            dest.push(i * 10).unwrap();
        }
    }
    let stealer = src.stealer();
    assert_eq!(stealer.steal(&mut src, &mut dest, |n| n), Ok(1));
    assert_eq!(dest.pop(), Some(1));
}

#[test]
fn lifo_steal_from_empty_queue_fails() {
    let mut src = worker();
    let mut dest = worker();
    let stealer = src.stealer();
    assert_eq!(stealer.steal(&mut src, &mut dest, |n| n), Err(StealError::Empty));
}

#[test]
fn lifo_steal_of_zero_items_fails() {
    let mut src = worker();
    let mut dest = worker();
    src.push(1).unwrap();
    let stealer = src.stealer();
    assert_eq!(stealer.steal(&mut src, &mut dest, |_| 0), Err(StealError::Empty));
    assert_eq!(src.pop(), Some(1));
}

#[test]
fn lifo_steal_and_pop_returns_newest_stolen() {
    let mut src = worker();
    let mut dest = worker();
    for i in 1..=4 {
        src.push(i).unwrap();
    }
    let stealer = src.stealer();
    assert_eq!(stealer.steal_and_pop(&mut src, &mut dest, |n| (n + 1) / 2), Ok((2, 1)));
    assert_eq!(dest.clear(), vec![1]);
    assert_eq!(src.clear(), vec![3, 4]);
}

#[test]
fn lifo_drain_blocks_other_steals() {
    let mut w = worker();
    let mut dest = worker();
    for i in 1..=3 {
        w.push(i).unwrap();
    }
    let mut drain = w.drain(|n| n - 1).unwrap();
    assert_eq!(drain.size_hint(), (2, Some(2)));
    let stealer = w.stealer();
    assert_eq!(stealer.steal(&mut w, &mut dest, |n| n), Err(StealError::Busy));
    assert_eq!(drain.next(&mut w), Some(1));
    assert_eq!(drain.next(&mut w), Some(2));
    assert_eq!(drain.next(&mut w), None);
    assert_eq!(stealer.steal(&mut w, &mut dest, |n| n), Ok(1));
    assert_eq!(dest.pop(), Some(3));
}

#[test]
fn lifo_drain_finish_takes_the_rest() {
    let mut w = worker();
    for i in 1..=4 {
        w.push(i).unwrap();
    }
    let mut drain = w.drain(|_| 3).unwrap();
    assert_eq!(drain.next(&mut w), Some(1));
    assert_eq!(drain.finish(&mut w), vec![2, 3]);
    assert_eq!(w.pop(), Some(4));
    assert!(w.drain(|n| n).is_err());
}

#[test]
fn lifo_drain_of_empty_queue_fails() {
    let mut w = worker();
    assert!(matches!(w.drain(|n| n), Err(StealError::Empty)));
}

#[test]
fn pack_and_unpack_roundtrip() {
    assert_eq!(pack(1, 2), (1u64 << 32) | 2);
    assert_eq!(unpack(pack(0xdead_beef, 7)), (0xdead_beef, 7));
    assert_eq!(unpack(u64::MAX), (u32::MAX, u32::MAX));
}

#[test]
fn steal_error_messages() {
    assert_eq!(StealError::Empty.message(), "cannot steal from empty queue");
    assert_eq!(StealError::Busy.message(), "a concurrent steal operation is ongoing");
}
