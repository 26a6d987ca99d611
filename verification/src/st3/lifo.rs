//! Bounded work-stealing queue with LIFO semantic for the worker and FIFO
//! batch stealing.
//!
//! The worker pushes and pops at the tail; stealers take batches from the
//! head. The tail is kept as the difference of a push count and a pop count;
//! the pop count and the head share one packed word. While a steal is in
//! progress the head has already moved past the booked items, and the
//! stealer head still marks where they start; once the booked items are
//! moved out the stealer head catches up with the head.
use vstd::prelude::*;
use crate::st3::{
    dist, is_capacity, lemma_same_slot, lemma_slot_offset, lemma_slot_offset_back,
    lemma_w32_add, lemma_w32_cong, lemma_dist_bounds, lemma_w32_sub, lemma_dist_sub, lemma_dist_sub_start, lemma_w32, lemma_dist_rest, lemma_write_run, slot_offset, write_run, lemma_capacity, lemma_dist_add, lemma_dist_reaches, lemma_dist_slot,
    lemma_mask_is_mod, lemma_slots_distinct, lemma_unpack_packed, lemma_wrap_slot, modulus, pack,
    packed, unpack, w32, StealError,
};

verus! {

/// The state of a queue as the contracts see it.
pub struct LifoState {
    /// Number of pushes, wrapping.
    pub push_count: u32,
    /// Number of pops, wrapping.
    pub pop_count: u32,
    /// Position of the first item that can still be popped or stolen.
    pub head: u32,
    /// Position of the first item of an unfinished steal (equal to `head`
    /// when no steal is in progress).
    pub stealer_head: u32,
    /// The ring buffer.
    pub slots: Seq<usize>,
}

impl LifoState {
    /// Capacity of the ring buffer.
    pub open spec fn cap(self) -> nat {
        self.slots.len()
    }

    /// Position one past the last item.
    pub open spec fn tail(self) -> u32 {
        w32(self.push_count - self.pop_count)
    }

    /// Number of items that can be popped or stolen.
    pub open spec fn len(self) -> nat {
        dist(self.head, self.tail())
    }

    /// Number of items booked by an unfinished steal.
    pub open spec fn stealing(self) -> nat {
        dist(self.stealer_head, self.head)
    }

    /// The buffer slot that holds position `p`.
    pub open spec fn slot(self, p: int) -> usize {
        self.slots[p % (self.cap() as int)]
    }

    /// The items, oldest (at the head) first, newest (at the tail) last.
    pub open spec fn items(self) -> Seq<usize> {
        Seq::new(self.len(), |i: int| self.slot(self.head + i))
    }

    /// The items booked by an unfinished steal, in order.
    pub open spec fn stolen(self) -> Seq<usize> {
        Seq::new(self.stealing(), |i: int| self.slot(self.stealer_head + i))
    }

    /// Well-formedness: a power-of-two buffer, at most a buffer's worth of
    /// items and of booked items.
    pub open spec fn wf(self) -> bool {
        &&& is_capacity(self.cap())
        &&& self.len() <= self.cap()
        &&& self.stealing() <= self.cap()
    }

    /// No steal is in progress.
    pub open spec fn idle(self) -> bool {
        self.stealer_head == self.head
    }

    /// The state after writing `item` at position `p`.
    pub open spec fn written(self, p: int, item: usize) -> LifoState {
        LifoState { slots: self.slots.update(p % (self.cap() as int), item), ..self }
    }

    /// The state after writing `xs` at consecutive positions from `p`.
    pub open spec fn written_all(self, p: int, xs: Seq<usize>) -> LifoState {
        LifoState { slots: write_run(self.slots, p, xs), ..self }
    }

    /// The state after appending `xs` at the tail.
    pub open spec fn appended(self, xs: Seq<usize>) -> LifoState {
        LifoState {
            push_count: w32(self.push_count + xs.len()),
            ..self.written_all(self.tail() as int, xs)
        }
    }

    /// The state after a successful push of `item`.
    pub open spec fn pushed(self, item: usize) -> LifoState {
        LifoState { push_count: w32(self.push_count + 1), ..self.written(self.tail() as int, item) }
    }

    /// The state after a successful pop.
    pub open spec fn popped(self) -> LifoState {
        LifoState { pop_count: w32(self.pop_count + 1), ..self }
    }

    /// The state after booking `count` items for stealing.
    pub open spec fn booked(self, count: nat) -> LifoState {
        LifoState { head: w32(self.head + count), ..self }
    }

    /// The state after the booked items have been moved out.
    pub open spec fn released(self) -> LifoState {
        LifoState { stealer_head: self.head, ..self }
    }

    /// The number of items a steal books: what the policy asked for, capped
    /// by `max` and by the number of items.
    pub open spec fn book_count(self, asked: usize, max: u32) -> nat {
        let a = if asked < max { asked as nat } else { max as nat };
        if a < self.len() {
            a
        } else {
            self.len()
        }
    }
}

/// The slot of a position behind the tail by `b`, for `0 < b <= n`, is at
/// offset `n - b` from the tail.
proof fn lemma_behind_tail(s: LifoState, x: int, b: int)
    requires
        s.wf(),
        0 < b <= s.cap(),
        (x - (s.tail() - b)) % modulus() == 0,
    ensures
        0 <= x % (s.cap() as int) < s.cap(),
        slot_offset(s.tail() as int, x % (s.cap() as int), s.cap()) == s.cap() - b,
{
    lemma_capacity(s.cap());
    lemma_same_slot(x, s.tail() - b, s.cap());
    lemma_slot_offset_back(s.tail() as int, b, s.cap());
}

/// A push onto a queue with room appends the item and keeps the queue
/// well-formed.
pub proof fn lemma_pushed(s: LifoState, item: usize)
    requires
        s.wf(),
        s.len() < s.cap(),
    ensures
        s.pushed(item).wf(),
        s.pushed(item).tail() == w32(s.tail() + 1),
        s.pushed(item).items() == s.items().push(item),
        s.len() + s.stealing() < s.cap() ==> s.pushed(item).stolen() == s.stolen(),
{
    let t = s.pushed(item);
    let n = s.cap();
    lemma_capacity(n);
    lemma_w32_add(s.push_count + 1, -(s.pop_count as int));
    lemma_w32_add(s.push_count - s.pop_count, 1);
    assert(t.tail() == w32(s.tail() + 1));
    lemma_dist_add(s.head, s.tail(), 1);
    assert(t.len() == s.len() + 1);
    lemma_dist_reaches(s.head, s.tail());
    lemma_w32_cong(s.head + s.len(), s.tail());
    lemma_slot_offset(s.tail() as int, 0, n);
    assert forall|i: int| 0 <= i < t.len() implies #[trigger] t.slot(t.head + i) == s.items().push(
        item,
    )[i] by {
        if i < s.len() {
            lemma_behind_tail(s, s.head + i, s.len() - i);
        } else {
            lemma_same_slot(s.head + i, s.tail() as int, n);
        }
    }
    assert(t.items() =~= s.items().push(item));
    if s.len() + s.stealing() < s.cap() {
        lemma_dist_reaches(s.stealer_head, s.head);
        lemma_w32_cong(s.stealer_head + s.stealing(), s.head);
        assert forall|i: int| 0 <= i < t.stealing() implies #[trigger] t.slot(
            t.stealer_head + i,
        ) == s.stolen()[i] by {
            lemma_behind_tail(s, s.stealer_head + i, s.stealing() + s.len() - i);
        }
        assert(t.stolen() =~= s.stolen());
    }
}

/// Appending `xs` moves the tail forward by the number of items.
proof fn lemma_appended_positions(s: LifoState, xs: Seq<usize>)
    requires
        s.wf(),
        s.stealing() + s.len() + xs.len() <= s.cap(),
    ensures
        s.appended(xs).head == s.head,
        s.appended(xs).stealer_head == s.stealer_head,
        s.appended(xs).pop_count == s.pop_count,
        s.appended(xs).cap() == s.cap(),
        s.appended(xs).tail() == w32(s.tail() + xs.len()),
        s.appended(xs).len() == s.len() + xs.len(),
        s.appended(xs).stealing() == s.stealing(),
{
    let t = s.appended(xs);
    let k = xs.len();
    lemma_capacity(s.cap());
    lemma_write_run(s.slots, s.tail() as int, xs);
    lemma_w32_add(s.push_count + k, -(s.pop_count as int));
    lemma_w32_add(s.push_count - s.pop_count, k as int);
    assert(t.tail() == w32(s.tail() + k));
    lemma_dist_add(s.head, s.tail(), k);
}

/// Appending at most the free room (counting booked items) adds the items
/// at the tail and leaves the booked items alone.
#[verifier::spinoff_prover]
#[verifier::rlimit(40)]
pub proof fn lemma_appended(s: LifoState, xs: Seq<usize>)
    requires
        s.wf(),
        s.stealing() + s.len() + xs.len() <= s.cap(),
    ensures
        s.appended(xs).wf(),
        s.appended(xs).head == s.head,
        s.appended(xs).stealer_head == s.stealer_head,
        s.appended(xs).pop_count == s.pop_count,
        s.appended(xs).tail() == w32(s.tail() + xs.len()),
        s.appended(xs).items() == s.items() + xs,
        s.appended(xs).stolen() == s.stolen(),
{
    let t = s.appended(xs);
    let n = s.cap();
    let k = xs.len();
    lemma_capacity(n);
    lemma_appended_positions(s, xs);
    lemma_write_run(s.slots, s.tail() as int, xs);
    lemma_dist_reaches(s.head, s.tail());
    lemma_w32_cong(s.head + s.len(), s.tail());
    lemma_dist_reaches(s.stealer_head, s.head);
    lemma_w32_cong(s.stealer_head + s.stealing(), s.head);
    assert forall|i: int| 0 <= i < t.len() implies #[trigger] t.slot(t.head + i) == (s.items()
        + xs)[i] by {
        if i < s.len() {
            lemma_behind_tail(s, s.head + i, s.len() - i);
        } else {
            lemma_same_slot(s.head + i, s.tail() + (i - s.len()), n);
            lemma_slot_offset(s.tail() as int, i - s.len(), n);
        }
    }
    assert(t.items() =~= s.items() + xs);
    assert forall|i: int| 0 <= i < t.stealing() implies #[trigger] t.slot(t.stealer_head + i)
        == s.stolen()[i] by {
        lemma_behind_tail(s, s.stealer_head + i, s.stealing() + s.len() - i);
    }
    assert(t.stolen() =~= s.stolen());
}

/// A pop from a non-empty queue removes the newest item.
pub proof fn lemma_popped(s: LifoState)
    requires
        s.wf(),
        s.len() > 0,
    ensures
        s.popped().wf(),
        s.popped().tail() == w32(s.tail() - 1),
        s.popped().items() == s.items().drop_last(),
        s.popped().stolen() == s.stolen(),
        s.items().last() == s.slot(s.tail() - 1),
{
    let t = s.popped();
    let n = s.cap();
    lemma_capacity(n);
    lemma_w32_sub(s.push_count as int, s.pop_count + 1);
    lemma_w32_add(s.push_count - s.pop_count, -1);
    assert(t.tail() == w32(s.tail() - 1));
    lemma_dist_sub(s.head, s.tail());
    assert(t.len() == s.len() - 1);
    assert(t.items() =~= s.items().drop_last());
    assert(t.stolen() =~= s.stolen());
    lemma_dist_reaches(s.head, s.tail());
    lemma_w32_cong(s.head + s.len(), s.tail());
    lemma_same_slot(s.head + s.len() - 1, s.tail() - 1, n);
}

/// Booking `k` items of an idle queue moves them from the items to the
/// booked items.
pub proof fn lemma_booked(s: LifoState, k: nat)
    requires
        s.wf(),
        s.idle(),
        0 < k <= s.len(),
    ensures
        s.booked(k).wf(),
        !s.booked(k).idle(),
        s.booked(k).items() == s.items().subrange(k as int, s.len() as int),
        s.booked(k).stolen() == s.items().subrange(0, k as int),
{
    let t = s.booked(k);
    let n = s.cap();
    lemma_capacity(n);
    lemma_dist_add(s.head, s.head, k);
    lemma_dist_reaches(s.head, s.tail());
    assert(t.stealing() == k);
    assert(t.len() == s.len() - k);
    assert forall|i: int| 0 <= i < t.len() implies #[trigger] t.slot(t.head + i) == s.slot(
        s.head + k + i,
    ) by {
        lemma_wrap_slot(s.head + k, n);
        vstd::arithmetic::div_mod::lemma_add_mod_noop(s.head + k, i, n as int);
        vstd::arithmetic::div_mod::lemma_add_mod_noop(t.head as int, i, n as int);
    }
    assert(t.items() =~= s.items().subrange(k as int, s.len() as int));
    assert(t.stolen() =~= s.items().subrange(0, k as int));
}

/// Releasing the booked items makes the queue idle again, its items unchanged.
pub proof fn lemma_released(s: LifoState)
    requires
        s.wf(),
    ensures
        s.released().wf(),
        s.released().idle(),
        s.released().items() == s.items(),
        s.released().stolen() == Seq::<usize>::empty(),
{
    assert(s.released().items() =~= s.items());
    assert(s.released().stolen() =~= Seq::<usize>::empty());
}

/// The slots of a queue.
#[derive(Debug)]
pub struct Ptr<const N: usize>(pub Vec<usize>);

impl<const N: usize> Ptr<N> {
    /// Creates `N` empty slots.
    pub fn new() -> (r: Self)
        ensures
            r.0@ == Seq::new(N as nat, |i: int| 0usize),
    {
        Ptr(vec![0usize; N])
    }
}

/// The positions that stealers work with.
#[derive(Debug)]
pub struct StealerData {
    /// The pop count (upper half) and the head (lower half).
    pub pop_count_and_head: u64,
    /// The stealer head.
    pub head: u32,
}

/// The queue proper.
#[derive(Debug)]
pub struct Queue<const N: usize> {
    /// Number of pushes, wrapping.
    pub push_count: u32,
    /// Positions shared with stealers.
    pub stealer_data: StealerData,
    /// The ring buffer.
    pub buffer: Ptr<N>,
}

impl<const N: usize> View for Queue<N> {
    type V = LifoState;

    open spec fn view(&self) -> LifoState {
        LifoState {
            push_count: self.push_count,
            pop_count: (self.stealer_data.pop_count_and_head / (modulus() as u64)) as u32,
            head: (self.stealer_data.pop_count_and_head % (modulus() as u64)) as u32,
            stealer_head: self.stealer_data.head,
            slots: self.buffer.0@,
        }
    }
}

impl<const N: usize> Queue<N> {
    /// Well-formedness: a buffer of `N` slots and a well-formed state.
    pub open spec fn wf(&self) -> bool {
        &&& self@.wf()
        &&& self@.cap() == N
    }

    /// Creates an empty queue.
    pub fn new() -> (r: Self)
        requires
            is_capacity(N as nat),
        ensures
            r.wf(),
            r@.push_count == 0 && r@.pop_count == 0 && r@.head == 0 && r@.stealer_head == 0,
            r@.items() == Seq::<usize>::empty(),
            r@.idle(),
    {
        let q = Queue {
            push_count: 0,
            stealer_data: StealerData { pop_count_and_head: 0, head: 0 },
            buffer: Ptr::new(),
        };
        assert(q@.items() =~= Seq::<usize>::empty());
        q
    }

    /// Reads the item at the given position.
    fn read_at(&self, position: u32) -> (r: usize)
        requires
            self.wf(),
        ensures
            r == self@.slot(position as int),
    {
        proof {
            lemma_capacity(N as nat);
            lemma_mask_is_mod(position, N as nat);
        }
        let mask = (N - 1) as u32;
        self.buffer.0[(position & mask) as usize]
    }

    /// Writes an item at the given position.
    fn write_at(&mut self, position: u32, item: usize)
        requires
            old(self).wf(),
        ensures
            final(self)@ == old(self)@.written(position as int, item),
            final(self).wf(),
    {
        proof {
            lemma_capacity(N as nat);
            lemma_mask_is_mod(position, N as nat);
        }
        let mask = (N - 1) as u32;
        let idx = (position & mask) as usize;
        self.buffer.0.set(idx, item);
    }
}

impl<const N: usize> Queue<N> {
    /// Books items for stealing: as many as `count_fn` asks for when given
    /// the number of available items, capped by `max_count` and by that
    /// number. Returns the old head, the new head and the count.
    #[verifier::spinoff_prover]
    #[verifier::rlimit(60)]
    fn book_items<C: Fn(usize) -> usize>(&mut self, count_fn: C, max_count: u32) -> (r: Result<
        (u32, u32, u32),
        StealError,
    >)
        requires
            old(self).wf(),
            forall|n: usize| count_fn.requires((n,)),
        ensures
            final(self).wf(),
            !old(self)@.idle() ==> r == Err::<(u32, u32, u32), StealError>(StealError::Busy)
                && final(self)@ == old(self)@,
            old(self)@.idle() && old(self)@.len() == 0 ==> r == Err::<(u32, u32, u32), StealError>(
                StealError::Empty,
            ) && final(self)@ == old(self)@,
            old(self)@.idle() && old(self)@.len() > 0 ==> exists|asked: usize|
                {
                    &&& #[trigger] count_fn.ensures((old(self)@.len() as usize,), asked)
                    &&& book_outcome(old(self)@, final(self)@, old(self)@.book_count(asked, max_count), r)
                },
    {
        let pop_count_and_head = self.stealer_data.pop_count_and_head;
        let old_head = self.stealer_data.head;
        let (pop_count, head) = unpack(pop_count_and_head);
        if old_head != head {
            return Err(StealError::Busy);
        }
        let push_count = self.push_count;
        let tail = push_count.wrapping_sub(pop_count);
        let item_count = tail.wrapping_sub(head);
        proof {
            lemma_w32(push_count - pop_count);
            lemma_dist_bounds(head, tail);
        }
        assert(tail == old(self)@.tail());
        assert(item_count == old(self)@.len());
        if item_count == 0 {
            return Err(StealError::Empty);
        }
        let asked = count_fn(item_count as usize);
        let capped = if asked < max_count as usize { asked } else { max_count as usize };
        let count = if (capped as u32) < item_count { capped as u32 } else { item_count };
        assert(count == old(self)@.book_count(asked, max_count));
        if count == 0 {
            assert(book_outcome(old(self)@, self@, count as nat, Err(StealError::Empty)));
            return Err(StealError::Empty);
        }
        let new_head = head.wrapping_add(count);
        self.stealer_data.pop_count_and_head = pack(pop_count, new_head);
        proof {
            lemma_unpack_packed(pop_count, new_head);
            lemma_booked(old(self)@, count as nat);
        }
        assert(self@ == old(self)@.booked(count as nat));
        assert(book_outcome(old(self)@, self@, count as nat, Ok((head, new_head, count))));
        Ok((head, new_head, count))
    }
}

/// Handle for single-threaded push and pop operations.
#[derive(Debug)]
pub struct Worker<const N: usize> {
    /// The queue this worker owns.
    pub queue: Queue<N>,
}

impl<const N: usize> View for Worker<N> {
    type V = LifoState;

    open spec fn view(&self) -> LifoState {
        self.queue@
    }
}

impl<const N: usize> Worker<N> {
    /// Well-formedness of the owned queue.
    pub open spec fn wf(&self) -> bool {
        self.queue.wf()
    }

    /// Creates a worker handle for the given queue.
    pub fn new(queue: Queue<N>) -> (r: Self)
        ensures
            r.queue == queue,
    {
        Worker { queue }
    }

    /// Creates a stealer handle associated with this worker.
    pub fn stealer(&self) -> (r: Stealer<N>) {
        Stealer {}
    }

    /// Returns the number of items that can still be pushed, counting the
    /// items of an unfinished steal as occupied.
    pub fn spare_capacity(&self) -> (r: usize)
        requires
            self.wf(),
            dist(self@.stealer_head, self@.tail()) <= N,
        ensures
            r == N - dist(self@.stealer_head, self@.tail()),
    {
        let push_count = self.queue.push_count;
        let pop_count = unpack(self.queue.stealer_data.pop_count_and_head).0;
        let tail = push_count.wrapping_sub(pop_count);
        let head = self.queue.stealer_data.head;
        let len = tail.wrapping_sub(head);
        proof {
            lemma_capacity(N as nat);
            lemma_w32(push_count - pop_count);
            lemma_dist_bounds(head, tail);
        }
        (N as u32 - len) as usize
    }

    /// Returns true if no item can be popped.
    pub fn is_empty(&self) -> (r: bool)
        requires
            self.wf(),
        ensures
            r == (self@.len() == 0),
            r == (self@.items().len() == 0),
    {
        let push_count = self.queue.push_count;
        let (pop_count, head) = unpack(self.queue.stealer_data.pop_count_and_head);
        let tail = push_count.wrapping_sub(pop_count);
        proof {
            lemma_w32(push_count - pop_count);
            lemma_dist_bounds(head, tail);
        }
        tail == head
    }

    /// Attempts to push an item at the tail of the queue; fails, giving the
    /// item back, when the queue holds `N` items.
    pub fn push(&mut self, item: usize) -> (r: Result<(), usize>)
        requires
            old(self).wf(),
        ensures
            final(self).wf(),
            old(self)@.len() >= N ==> r == Err::<(), usize>(item) && final(self)@ == old(self)@,
            old(self)@.len() < N ==> r == Ok::<(), usize>(()) && final(self)@ == old(self)@.pushed(
                item,
            ),
            old(self)@.len() < N ==> final(self)@.items() == old(self)@.items().push(item),
    {
        let push_count = self.queue.push_count;
        let pop_count_and_head = self.queue.stealer_data.pop_count_and_head;
        let (pop_count, head) = unpack(pop_count_and_head);
        let tail = push_count.wrapping_sub(pop_count);
        proof {
            lemma_capacity(N as nat);
            lemma_w32(push_count - pop_count);
            lemma_dist_bounds(head, tail);
        }
        if tail.wrapping_sub(head) >= N as u32 {
            return Err(item);
        }
        self.queue.write_at(tail, item);
        self.queue.push_count = push_count.wrapping_add(1);
        proof {
            lemma_w32(push_count + 1);
            lemma_pushed(old(self)@, item);
        }
        Ok(())
    }

    /// Attempts to pop the newest item; returns `None` if the queue is empty.
    pub fn pop(&mut self) -> (r: Option<usize>)
        requires
            old(self).wf(),
        ensures
            final(self).wf(),
            old(self)@.len() == 0 ==> r == None::<usize> && final(self)@ == old(self)@,
            old(self)@.len() > 0 ==> r == Some(old(self)@.items().last()) && final(self)@ == old(
                self,
            )@.popped(),
            old(self)@.len() > 0 ==> final(self)@.items() == old(self)@.items().drop_last(),
    {
        let pop_count_and_head = self.queue.stealer_data.pop_count_and_head;
        let push_count = self.queue.push_count;
        let (pop_count, head) = unpack(pop_count_and_head);
        let tail = push_count.wrapping_sub(pop_count);
        let new_pop_count = pop_count.wrapping_add(1);
        proof {
            lemma_w32(push_count - pop_count);
            lemma_w32(pop_count + 1);
            lemma_dist_bounds(head, tail);
        }
        if tail == head {
            return None;
        }
        self.queue.stealer_data.pop_count_and_head = pack(new_pop_count, head);
        proof {
            lemma_unpack_packed(new_pop_count, head);
            lemma_popped(old(self)@);
        }
        assert(self@ == old(self)@.popped());
        let last = tail.wrapping_sub(1);
        proof {
            lemma_w32(tail - 1);
            lemma_wrap_slot(tail - 1, N as nat);
        }
        Some(self.queue.read_at(last))
    }
}

impl<const N: usize> Worker<N> {
    /// Pushes the items at the tail, in order, until the buffer is full
    /// (counting the items of an unfinished steal as occupied); the items
    /// that do not fit are dropped.
    #[verifier::spinoff_prover]
    #[verifier::rlimit(60)]
    pub fn extend(&mut self, items: Vec<usize>)
        requires
            old(self).wf(),
        ensures
            ({
                let room = dist(old(self)@.tail(), w32(old(self)@.stealer_head + N));
                let k = if items@.len() < room { items@.len() } else { room };
                &&& final(self)@ == old(self)@.appended(items@.take(k as int))
                &&& old(self)@.stealing() + old(self)@.len() <= N ==> {
                    &&& final(self).wf()
                    &&& room == N - old(self)@.stealing() - old(self)@.len()
                    &&& final(self)@.items() == old(self)@.items() + items@.take(k as int)
                }
            }),
    {
        let push_count = self.queue.push_count;
        let pop_count = unpack(self.queue.stealer_data.pop_count_and_head).0;
        let tail0 = push_count.wrapping_sub(pop_count);
        let mut tail = tail0;
        let head = self.queue.stealer_data.head;
        let max_tail = head.wrapping_add(N as u32);
        let ghost room = dist(tail0, max_tail);
        let ghost s0 = old(self)@;
        proof {
            lemma_capacity(N as nat);
            lemma_w32(push_count - pop_count);
            lemma_w32(head + N);
            lemma_dist_bounds(tail0, max_tail);
            assert(items@.take(0) =~= Seq::<usize>::empty());
        }
        let mut i: usize = 0;
        while i < items.len() && tail != max_tail
            invariant
                self.wf(),
                i <= items.len(),
                i <= room,
                room < modulus(),
                tail0 == s0.tail(),
                room == dist(tail0, max_tail),
                tail == w32(tail0 + i),
                self@ == s0.written_all(tail0 as int, items@.take(i as int)),
                self@.slots.len() == N,
                s0.slots.len() == N,
            decreases items.len() - i,
        {
            proof {
                lemma_dist_add(tail0, tail0, i as nat);
                lemma_dist_bounds(tail0, tail0);
                lemma_w32(tail0 + i);
            }
            let ghost before = self@;
            self.queue.write_at(tail, items[i]);
            proof {
                lemma_wrap_slot(tail0 + i, N as nat);
                let xs = items@.take(i + 1);
                assert(xs.drop_last() =~= items@.take(i as int));
                assert(xs.last() == items@[i as int]);
                assert(xs.len() == i + 1);
                assert(write_run(s0.slots, tail0 as int, xs) == write_run(
                    s0.slots,
                    tail0 as int,
                    xs.drop_last(),
                ).update((tail0 + xs.len() - 1) % (s0.slots.len() as int), xs.last()));
                assert(self@ == s0.written_all(tail0 as int, xs));
            }
            tail = tail.wrapping_add(1);
            i += 1;
            proof {
                lemma_w32(tail0 + i - 1 + 1);
                lemma_w32_add(tail0 + i - 1, 1);
            }
        }
        proof {
            lemma_dist_add(tail0, tail0, i as nat);
            lemma_dist_bounds(tail0, tail0);
            assert(i == (if items@.len() < room { items@.len() } else { room }));
        }
        self.queue.push_count = tail.wrapping_add(pop_count);
        proof {
            lemma_w32(tail + pop_count);
            lemma_w32_add(tail0 + i, pop_count as int);
            lemma_w32_add(push_count - pop_count, i as int);
            assert(w32(push_count - pop_count + i + pop_count) == w32(push_count + i));
            assert(self@ == s0.appended(items@.take(i as int)));
            if s0.stealing() + s0.len() <= N {
                lemma_dist_reaches(s0.stealer_head, s0.head);
                lemma_dist_add(s0.stealer_head, s0.head, s0.len());
                lemma_dist_reaches(s0.head, s0.tail());
                lemma_dist_rest(s0.stealer_head, s0.tail(), N as nat);
                lemma_w32(s0.stealer_head + N);
                lemma_appended(s0, items@.take(i as int));
            }
        }
    }

    /// Books items for stealing and returns an iterator-like handle over
    /// them: as many as `count_fn` asks for when given the number of
    /// available items. Until all of them are taken out, other stealing
    /// operations fail with `Busy`.
    pub fn drain<C: Fn(usize) -> usize>(&mut self, count_fn: C) -> (r: Result<Drain<N>, StealError>)
        requires
            old(self).wf(),
            forall|n: usize| count_fn.requires((n,)),
        ensures
            final(self).wf(),
            !old(self)@.idle() ==> r == Err::<Drain<N>, StealError>(StealError::Busy)
                && final(self)@ == old(self)@,
            old(self)@.idle() && old(self)@.len() == 0 ==> r == Err::<Drain<N>, StealError>(
                StealError::Empty,
            ) && final(self)@ == old(self)@,
            old(self)@.idle() && old(self)@.len() > 0 ==> exists|asked: usize|
                {
                    &&& #[trigger] count_fn.ensures((old(self)@.len() as usize,), asked)
                    &&& drain_outcome(
                        old(self)@,
                        final(self)@,
                        old(self)@.book_count(asked, u32::MAX),
                        r,
                    )
                },
    {
        match self.queue.book_items(count_fn, u32::MAX) {
            Ok((old_head, new_head, count)) => {
                let d = Drain { current: old_head, end: new_head };
                proof {
                    let asked = choose|asked: usize|
                        {
                            &&& #[trigger] count_fn.ensures((old(self)@.len() as usize,), asked)
                            &&& book_outcome(
                                old(self)@,
                                self@,
                                old(self)@.book_count(asked, u32::MAX),
                                Ok::<(u32, u32, u32), StealError>((old_head, new_head, count)),
                            )
                        };
                    lemma_booked(old(self)@, count as nat);
                    lemma_drain_fresh(old(self)@, count as nat, d);
                    assert(drain_outcome(
                        old(self)@,
                        self@,
                        old(self)@.book_count(asked, u32::MAX),
                        Ok::<Drain<N>, StealError>(d),
                    ));
                }
                Ok(d)
            },
            Err(e) => {
                proof {
                    if old(self)@.idle() && old(self)@.len() > 0 {
                        let asked = choose|asked: usize|
                            {
                                &&& #[trigger] count_fn.ensures((old(self)@.len() as usize,), asked)
                                &&& book_outcome(
                                    old(self)@,
                                    self@,
                                    old(self)@.book_count(asked, u32::MAX),
                                    Err::<(u32, u32, u32), StealError>(e),
                                )
                            };
                        assert(drain_outcome(
                            old(self)@,
                            self@,
                            old(self)@.book_count(asked, u32::MAX),
                            Err::<Drain<N>, StealError>(e),
                        ));
                    }
                }
                Err(e)
            },
        }
    }

    /// Takes out all items that can be stolen, oldest first, and returns
    /// them; nothing is taken while another steal is unfinished.
    pub fn clear(&mut self) -> (r: Vec<usize>)
        requires
            old(self).wf(),
        ensures
            final(self).wf(),
            !old(self)@.idle() ==> r@ == Seq::<usize>::empty() && final(self)@ == old(self)@,
            old(self)@.idle() ==> r@ == old(self)@.items() && final(self)@ == old(self)@.booked(
                old(self)@.len(),
            ).released(),
            old(self)@.idle() ==> final(self)@.items() == Seq::<usize>::empty(),
    {
        proof {
            lemma_capacity(N as nat);
        }
        let all = |count: usize| -> (c: usize)
            ensures
                c == count,
            { count };
        let r = match self.drain(all) {
            Ok(mut drain) => {
                proof {
                    lemma_booked(old(self)@, old(self)@.len());
                }
                drain.finish(self)
            },
            Err(_) => Vec::new(),
        };
        proof {
            if old(self)@.idle() {
                if old(self)@.len() == 0 {
                    assert(old(self)@.booked(0) == old(self)@) by {
                        lemma_w32(old(self)@.head + 0);
                    }
                    assert(old(self)@.items() =~= Seq::<usize>::empty());
                }
                lemma_booked_all(old(self)@);
            }
        }
        r
    }
}

/// Booking every item leaves nothing to pop.
proof fn lemma_booked_all(s: LifoState)
    requires
        s.wf(),
        s.idle(),
    ensures
        s.booked(s.len()).released().wf(),
        s.booked(s.len()).released().items() == Seq::<usize>::empty(),
{
    lemma_dist_reaches(s.head, s.tail());
    lemma_dist_bounds(s.tail(), s.tail());
    assert(s.booked(s.len()).released().items() =~= Seq::<usize>::empty());
}

/// A fresh drain over `count` booked items lies within the booked range.
proof fn lemma_drain_fresh<const N: usize>(s: LifoState, count: nat, d: Drain<N>)
    requires
        s.wf(),
        s.idle(),
        0 < count <= s.len(),
        d.current == s.head,
        d.end == w32(s.head + count),
    ensures
        d.pending_in(s.booked(count)),
        d.remaining(s.booked(count)) == s.items().take(count as int),
{
    lemma_booked(s, count);
    lemma_dist_bounds(s.head, s.head);
    lemma_dist_add(s.head, s.head, count);
    assert(d.remaining(s.booked(count)) =~= s.items().take(count as int));
}

/// The result of a drain: nothing when the count is zero, otherwise a
/// handle over the items booked from the head on.
pub open spec fn drain_outcome<const N: usize>(
    pre: LifoState,
    post: LifoState,
    count: nat,
    r: Result<Drain<N>, StealError>,
) -> bool {
    &&& count == 0 ==> r == Err::<Drain<N>, StealError>(StealError::Empty) && post == pre
    &&& count > 0 ==> r is Ok && post == pre.booked(count) && r->Ok_0.current() == pre.head
        && r->Ok_0.end() == w32(pre.head + count) && r->Ok_0.pending_in(post)
        && r->Ok_0.remaining(post) == pre.items().take(count as int)
}

/// The items booked by [`Worker::drain`], taken out one at a time.
#[derive(Debug)]
pub struct Drain<const N: usize> {
    current: u32,
    end: u32,
}

impl<const N: usize> Drain<N> {
    /// Position of the next item to take out.
    pub closed spec fn current(self) -> u32 {
        self.current
    }

    /// Position one past the last booked item.
    pub closed spec fn end(self) -> u32 {
        self.end
    }

    /// This drain belongs to a queue in state `w`: its items are the last
    /// booked ones, and the queue is idle once they are all taken.
    pub open spec fn pending_in(self, w: LifoState) -> bool {
        &&& w.head == self.end()
        &&& dist(w.stealer_head, self.current()) + dist(self.current(), self.end()) == w.stealing()
        &&& self.current() == self.end() ==> w.idle()
    }

    /// The items still to be taken out.
    pub open spec fn remaining(self, w: LifoState) -> Seq<usize> {
        Seq::new(dist(self.current(), self.end()), |i: int| w.slot(self.current() + i))
    }

    /// Takes out the next booked item; the queue becomes idle again when the
    /// last one is taken.
    pub fn next(&mut self, worker: &mut Worker<N>) -> (r: Option<usize>)
        requires
            old(worker).wf(),
            old(self).pending_in(old(worker)@),
        ensures
            final(worker).wf(),
            final(self).pending_in(final(worker)@),
            old(self).remaining(old(worker)@).len() == 0 ==> r == None::<usize> && *final(self)
                == *old(self) && final(worker)@ == old(worker)@,
            old(self).remaining(old(worker)@).len() > 0 ==> r == Some(
                old(self).remaining(old(worker)@)[0],
            ) && final(self).remaining(final(worker)@) == old(self).remaining(
                old(worker)@,
            ).drop_first(),
            final(self).remaining(final(worker)@).len() == 0 ==> final(worker)@ == old(
                worker,
            )@.released(),
            final(self).remaining(final(worker)@).len() > 0 ==> final(worker)@ == old(worker)@,
    {
        proof {
            lemma_dist_bounds(self.current, self.end);
        }
        if self.current == self.end {
            return None;
        }
        let item = worker.queue.read_at(self.current);
        let ghost c0 = self.current;
        self.current = self.current.wrapping_add(1);
        proof {
            lemma_w32(c0 + 1);
            lemma_dist_add(worker@.stealer_head, c0, 1);
            lemma_dist_add(c0, c0, 1);
            lemma_dist_bounds(c0, c0);
            lemma_dist_reaches(c0, self.end);
            lemma_dist_sub_start(c0, self.end);
        }
        if self.current == self.end {
            worker.queue.stealer_data.head = self.end;
        }
        proof {
            lemma_dist_bounds(self.current, self.end);
            lemma_capacity(N as nat);
            lemma_w32_cong(c0 + 1, self.current);
            assert forall|i: int| 0 <= i < dist(self.current, self.end) implies #[trigger] worker@.slot(
                self.current + i,
            ) == old(worker)@.slot(c0 + 1 + i) by {
                lemma_same_slot(self.current + i, c0 + 1 + i, N as nat);
            }
            assert(self.remaining(worker@) =~= old(self).remaining(old(worker)@).drop_first());
        }
        Some(item)
    }

    /// The number of items still to be taken out, as a lower and upper bound.
    pub fn size_hint(&self) -> (r: (usize, Option<usize>))
        ensures
            r.0 == dist(self.current(), self.end()),
            r.1 == Some(r.0),
    {
        proof {
            lemma_dist_bounds(self.current, self.end);
        }
        let sz = self.end.wrapping_sub(self.current) as usize;
        (sz, Some(sz))
    }

    /// Takes out all remaining booked items, in order, leaving the queue
    /// idle.
    pub fn finish(&mut self, worker: &mut Worker<N>) -> (r: Vec<usize>)
        requires
            old(worker).wf(),
            old(self).pending_in(old(worker)@),
        ensures
            final(worker).wf(),
            r@ == old(self).remaining(old(worker)@),
            final(worker)@ == old(worker)@.released(),
            final(self).pending_in(final(worker)@),
    {
        let mut out: Vec<usize> = Vec::new();
        let ghost all = self.remaining(worker@);
        let ghost w0 = worker@;
        proof {
            lemma_dist_bounds(self.current, self.end);
            assert(out@ + self.remaining(worker@) =~= all);
            if self.current == self.end {
                assert(w0 == w0.released());
            }
        }
        loop
            invariant
                worker.wf(),
                self.pending_in(worker@),
                out@ + self.remaining(worker@) == all,
                all == old(self).remaining(old(worker)@),
                w0 == old(worker)@,
                self.remaining(worker@).len() > 0 ==> worker@ == w0,
                self.remaining(worker@).len() == 0 ==> worker@ == w0.released(),
            decreases self.remaining(worker@).len(),
        {
            let ghost before = self.remaining(worker@);
            match self.next(worker) {
                Some(item) => {
                    out.push(item);
                    proof {
                        assert(out@ + self.remaining(worker@) =~= all);
                    }
                },
                None => {
                    proof {
                        assert(self.remaining(worker@).len() == 0);
                        assert(out@ =~= all);
                        assert(worker@ == w0.released());
                    }
                    return out;
                },
            }
        }
    }
}

impl<const N: usize> Queue<N> {
    /// Copies `count` items from consecutive positions of `src`, starting at
    /// `from`, to consecutive positions of this queue, starting at `to`.
    fn copy_from(&mut self, src: &Queue<N>, from: u32, to: u32, count: u32)
        requires
            old(self).wf(),
            src.wf(),
        ensures
            final(self).wf(),
            final(self)@ == old(self)@.written_all(
                to as int,
                Seq::new(count as nat, |i: int| src@.slot(from + i)),
            ),
    {
        let ghost s0 = self@;
        let ghost xs = Seq::new(count as nat, |i: int| src@.slot(from + i));
        let mut offset: u32 = 0;
        proof {
            assert(xs.take(0) =~= Seq::<usize>::empty());
        }
        while offset < count
            invariant
                self.wf(),
                src.wf(),
                s0.slots.len() == N,
                offset <= count,
                xs == Seq::new(count as nat, |i: int| src@.slot(from + i)),
                self@ == s0.written_all(to as int, xs.take(offset as int)),
            decreases count - offset,
        {
            proof {
                lemma_w32(from + offset);
                lemma_w32(to + offset);
                lemma_wrap_slot(from + offset, N as nat);
                lemma_wrap_slot(to + offset, N as nat);
            }
            let item = src.read_at(from.wrapping_add(offset));
            self.write_at(to.wrapping_add(offset), item);
            proof {
                let ys = xs.take(offset + 1);
                assert(ys.drop_last() =~= xs.take(offset as int));
                assert(ys.last() == item);
                assert(write_run(s0.slots, to as int, ys) == write_run(
                    s0.slots,
                    to as int,
                    ys.drop_last(),
                ).update((to + ys.len() - 1) % (s0.slots.len() as int), ys.last()));
            }
            offset += 1;
        }
        proof {
            assert(xs.take(count as int) =~= xs);
        }
    }
}

/// The result of a steal of `count` items from `src` into `dest`: nothing
/// when the count is zero, otherwise the oldest `count` items of `src` are
/// appended to `dest`.
pub open spec fn steal_outcome(
    src0: LifoState,
    dest0: LifoState,
    src1: LifoState,
    dest1: LifoState,
    count: nat,
    r: Result<usize, StealError>,
) -> bool {
    &&& count == 0 ==> r == Err::<usize, StealError>(StealError::Empty) && src1 == src0 && dest1
        == dest0
    &&& count > 0 ==> {
        &&& r == Ok::<usize, StealError>(count as usize)
        &&& src1 == src0.booked(count).released()
        &&& dest1 == dest0.appended(src0.items().take(count as int))
        &&& src1.items() == src0.items().skip(count as int)
        &&& dest0.stealing() + dest0.len() + count <= dest0.cap() ==> dest1.items() == dest0.items()
            + src0.items().take(count as int)
    }
}

/// The result of a steal-and-pop of `count` items from `src` into `dest`:
/// nothing when the count is zero, otherwise the newest of the stolen items
/// is returned and the others are appended to `dest`.
pub open spec fn steal_and_pop_outcome(
    src0: LifoState,
    dest0: LifoState,
    src1: LifoState,
    dest1: LifoState,
    count: nat,
    r: Result<(usize, usize), StealError>,
) -> bool {
    &&& count == 0 ==> r == Err::<(usize, usize), StealError>(StealError::Empty) && src1 == src0
        && dest1 == dest0
    &&& count > 0 ==> {
        &&& r == Ok::<(usize, usize), StealError>(
            (src0.items()[count - 1], (count - 1) as usize),
        )
        &&& src1 == src0.booked(count).released()
        &&& dest1 == dest0.appended(src0.items().take(count - 1))
        &&& src1.items() == src0.items().skip(count as int)
        &&& dest0.stealing() + dest0.len() + count - 1 <= dest0.cap() ==> dest1.items()
            == dest0.items() + src0.items().take(count - 1)
    }
}

/// The room left in `dest` once the items it holds and the items booked
/// from it are counted.
pub open spec fn free_room(dest: LifoState) -> nat {
    (dest.cap() - dist(dest.stealer_head, dest.tail())) as nat
}

/// A handle for stealing operations. The queue it steals from is the
/// worker passed to its methods.
#[derive(Debug, Clone, Copy)]
pub struct Stealer<const N: usize> {}

impl<const N: usize> Stealer<N> {
    /// Moves the free room of `dest` (as `spare_capacity` counts it) into
    /// the state after the moved items were written and published.
    proof fn lemma_moved(src0: LifoState, dest0: LifoState, k: nat, moved: Seq<usize>)
        requires
            src0.wf(),
            dest0.wf(),
            src0.idle(),
            0 < k <= src0.len(),
            moved == Seq::new(k, |i: int| src0.booked(k).slot(src0.head + i)),
        ensures
            moved == src0.items().take(k as int),
            src0.booked(k).released().wf(),
            src0.booked(k).released().items() == src0.items().skip(k as int),
    {
        lemma_booked(src0, k);
        lemma_released(src0.booked(k));
        assert(moved =~= src0.items().take(k as int));
        assert(src0.items().subrange(k as int, src0.len() as int) =~= src0.items().skip(k as int));
    }

    /// Attempts to steal items from the head of `src` and move them to the
    /// tail of `dest`: as many as `count_fn` asks for when given the number
    /// of available items, capped by the spare capacity of `dest`. Returns
    /// the number of items moved.
    #[verifier::spinoff_prover]
    #[verifier::rlimit(60)]
    pub fn steal<C: Fn(usize) -> usize>(
        &self,
        src: &mut Worker<N>,
        dest: &mut Worker<N>,
        count_fn: C,
    ) -> (r: Result<usize, StealError>)
        requires
            old(src).wf(),
            old(dest).wf(),
            dist(old(dest)@.stealer_head, old(dest)@.tail()) <= N,
            forall|n: usize| count_fn.requires((n,)),
        ensures
            final(src).wf(),
            !old(src)@.idle() ==> r == Err::<usize, StealError>(StealError::Busy) && final(src)@
                == old(src)@ && final(dest)@ == old(dest)@,
            old(src)@.idle() && old(src)@.len() == 0 ==> r == Err::<usize, StealError>(
                StealError::Empty,
            ) && final(src)@ == old(src)@ && final(dest)@ == old(dest)@,
            old(src)@.idle() && old(src)@.len() > 0 ==> exists|asked: usize|
                {
                    &&& #[trigger] count_fn.ensures((old(src)@.len() as usize,), asked)
                    &&& steal_outcome(
                        old(src)@,
                        old(dest)@,
                        final(src)@,
                        final(dest)@,
                        old(src)@.book_count(asked, free_room(old(dest)@) as u32),
                        r,
                    )
                },
            old(dest)@.stealing() + old(dest)@.len() <= N ==> final(dest).wf(),
    {
        let dest_push_count = dest.queue.push_count;
        let dest_pop_count = unpack(dest.queue.stealer_data.pop_count_and_head).0;
        let dest_tail = dest_push_count.wrapping_sub(dest_pop_count);
        let dest_head = dest.queue.stealer_data.head;
        proof {
            lemma_capacity(N as nat);
            lemma_w32(dest_push_count - dest_pop_count);
            lemma_dist_bounds(dest_head, dest_tail);
        }
        let dest_free_capacity = N as u32 - dest_tail.wrapping_sub(dest_head);
        assert(dest_free_capacity == free_room(old(dest)@));
        let (old_head, new_head, transfer_count) = match src.queue.book_items(
            count_fn,
            dest_free_capacity,
        ) {
            Ok(booked) => booked,
            Err(e) => {
                proof {
                    if old(src)@.idle() && old(src)@.len() > 0 {
                        let asked = choose|asked: usize|
                            {
                                &&& #[trigger] count_fn.ensures((old(src)@.len() as usize,), asked)
                                &&& book_outcome(
                                    old(src)@,
                                    src@,
                                    old(src)@.book_count(asked, dest_free_capacity),
                                    Err::<(u32, u32, u32), StealError>(e),
                                )
                            };
                        assert(steal_outcome(
                            old(src)@,
                            old(dest)@,
                            src@,
                            dest@,
                            old(src)@.book_count(asked, dest_free_capacity),
                            Err::<usize, StealError>(e),
                        ));
                    }
                }
                return Err(e);
            },
        };
        let ghost asked = choose|asked: usize|
            {
                &&& #[trigger] count_fn.ensures((old(src)@.len() as usize,), asked)
                &&& book_outcome(
                    old(src)@,
                    src@,
                    old(src)@.book_count(asked, dest_free_capacity),
                    Ok::<(u32, u32, u32), StealError>((old_head, new_head, transfer_count)),
                )
            };
        let ghost k = transfer_count as nat;
        let ghost moved = Seq::new(k, |i: int| src@.slot(old_head + i));
        proof {
            lemma_booked(old(src)@, k);
            lemma_dist_bounds(old(dest)@.stealer_head, old(dest)@.tail());
        }
        dest.queue.copy_from(&src.queue, old_head, dest_tail, transfer_count);
        dest.queue.push_count = dest_push_count.wrapping_add(transfer_count);
        src.queue.stealer_data.head = new_head;
        proof {
            lemma_w32(dest_push_count + transfer_count);
            Self::lemma_moved(old(src)@, old(dest)@, k, moved);
            assert(dest@ == old(dest)@.appended(moved));
            assert(src@ == old(src)@.booked(k).released());
            if old(dest)@.stealing() + old(dest)@.len() <= N {
                lemma_dist_reaches(old(dest)@.stealer_head, old(dest)@.head);
                lemma_dist_add(old(dest)@.stealer_head, old(dest)@.head, old(dest)@.len());
                lemma_dist_reaches(old(dest)@.head, old(dest)@.tail());
                lemma_appended(old(dest)@, moved);
            }
            assert(steal_outcome(
                old(src)@,
                old(dest)@,
                src@,
                dest@,
                old(src)@.book_count(asked, dest_free_capacity),
                Ok::<usize, StealError>(transfer_count as usize),
            ));
        }
        Ok(transfer_count as usize)
    }

    /// Attempts to steal items from the head of `src`, returning the newest
    /// of them directly and moving the others to the tail of `dest`: as many
    /// as `count_fn` asks for when given the number of available items,
    /// capped by one more than the spare capacity of `dest`. Returns the
    /// item and the number of items moved.
    #[verifier::spinoff_prover]
    #[verifier::rlimit(60)]
    pub fn steal_and_pop<C: Fn(usize) -> usize>(
        &self,
        src: &mut Worker<N>,
        dest: &mut Worker<N>,
        count_fn: C,
    ) -> (r: Result<(usize, usize), StealError>)
        requires
            old(src).wf(),
            old(dest).wf(),
            dist(old(dest)@.stealer_head, old(dest)@.tail()) <= N,
            forall|n: usize| count_fn.requires((n,)),
        ensures
            final(src).wf(),
            !old(src)@.idle() ==> r == Err::<(usize, usize), StealError>(StealError::Busy)
                && final(src)@ == old(src)@ && final(dest)@ == old(dest)@,
            old(src)@.idle() && old(src)@.len() == 0 ==> r == Err::<(usize, usize), StealError>(
                StealError::Empty,
            ) && final(src)@ == old(src)@ && final(dest)@ == old(dest)@,
            old(src)@.idle() && old(src)@.len() > 0 ==> exists|asked: usize|
                {
                    &&& #[trigger] count_fn.ensures((old(src)@.len() as usize,), asked)
                    &&& steal_and_pop_outcome(
                        old(src)@,
                        old(dest)@,
                        final(src)@,
                        final(dest)@,
                        old(src)@.book_count(asked, (free_room(old(dest)@) + 1) as u32),
                        r,
                    )
                },
            old(dest)@.stealing() + old(dest)@.len() <= N ==> final(dest).wf(),
    {
        let dest_push_count = dest.queue.push_count;
        let dest_pop_count = unpack(dest.queue.stealer_data.pop_count_and_head).0;
        let dest_tail = dest_push_count.wrapping_sub(dest_pop_count);
        let dest_head = dest.queue.stealer_data.head;
        proof {
            lemma_capacity(N as nat);
            lemma_w32(dest_push_count - dest_pop_count);
            lemma_dist_bounds(dest_head, dest_tail);
        }
        let dest_free_capacity = N as u32 - dest_tail.wrapping_sub(dest_head);
        assert(dest_free_capacity + 1 == free_room(old(dest)@) + 1);
        let (old_head, new_head, count) = match src.queue.book_items(
            count_fn,
            dest_free_capacity + 1,
        ) {
            Ok(booked) => booked,
            Err(e) => {
                proof {
                    if old(src)@.idle() && old(src)@.len() > 0 {
                        let asked = choose|asked: usize|
                            {
                                &&& #[trigger] count_fn.ensures((old(src)@.len() as usize,), asked)
                                &&& book_outcome(
                                    old(src)@,
                                    src@,
                                    old(src)@.book_count(asked, (dest_free_capacity + 1) as u32),
                                    Err::<(u32, u32, u32), StealError>(e),
                                )
                            };
                        assert(steal_and_pop_outcome(
                            old(src)@,
                            old(dest)@,
                            src@,
                            dest@,
                            old(src)@.book_count(asked, (dest_free_capacity + 1) as u32),
                            Err::<(usize, usize), StealError>(e),
                        ));
                    }
                }
                return Err(e);
            },
        };
        let ghost asked = choose|asked: usize|
            {
                &&& #[trigger] count_fn.ensures((old(src)@.len() as usize,), asked)
                &&& book_outcome(
                    old(src)@,
                    src@,
                    old(src)@.book_count(asked, (dest_free_capacity + 1) as u32),
                    Ok::<(u32, u32, u32), StealError>((old_head, new_head, count)),
                )
            };
        let transfer_count = count - 1;
        let ghost k = count as nat;
        let ghost moved = Seq::new((k - 1) as nat, |i: int| src@.slot(old_head + i));
        let ghost all = Seq::new(k, |i: int| src@.slot(old_head + i));
        proof {
            lemma_booked(old(src)@, k);
            lemma_dist_bounds(old(dest)@.stealer_head, old(dest)@.tail());
        }
        dest.queue.copy_from(&src.queue, old_head, dest_tail, transfer_count);
        proof {
            lemma_w32(old_head + transfer_count);
            lemma_wrap_slot(old_head + transfer_count, N as nat);
        }
        let last_item = src.queue.read_at(old_head.wrapping_add(transfer_count));
        dest.queue.push_count = dest_push_count.wrapping_add(transfer_count);
        src.queue.stealer_data.head = new_head;
        proof {
            lemma_w32(dest_push_count + transfer_count);
            Self::lemma_moved(old(src)@, old(dest)@, k, all);
            assert(moved =~= all.take(k - 1));
            assert(last_item == all[k - 1]);
            assert(dest@ == old(dest)@.appended(moved));
            assert(src@ == old(src)@.booked(k).released());
            if old(dest)@.stealing() + old(dest)@.len() <= N {
                lemma_dist_reaches(old(dest)@.stealer_head, old(dest)@.head);
                lemma_dist_add(old(dest)@.stealer_head, old(dest)@.head, old(dest)@.len());
                lemma_dist_reaches(old(dest)@.head, old(dest)@.tail());
                lemma_appended(old(dest)@, moved);
            }
            assert(old(src)@.items().take(k - 1) =~= moved);
            assert(steal_and_pop_outcome(
                old(src)@,
                old(dest)@,
                src@,
                dest@,
                old(src)@.book_count(asked, (dest_free_capacity + 1) as u32),
                Ok::<(usize, usize), StealError>((last_item, transfer_count as usize)),
            ));
        }
        Ok((last_item, transfer_count as usize))
    }
}

/// The result of a booking: nothing when the count is zero, otherwise the
/// items from the head on are booked.
pub open spec fn book_outcome(
    pre: LifoState,
    post: LifoState,
    count: nat,
    r: Result<(u32, u32, u32), StealError>,
) -> bool {
    &&& count == 0 ==> r == Err::<(u32, u32, u32), StealError>(StealError::Empty) && post == pre
    &&& count > 0 ==> r == Ok::<(u32, u32, u32), StealError>(
        (pre.head, w32(pre.head + count), count as u32),
    ) && post == pre.booked(count)
}

} // verus!

verus! {

/// Last in, first out: popping right after a successful push gives back the
/// pushed item and restores the items.
pub proof fn law_push_then_pop(s: LifoState, item: usize)
    requires
        s.wf(),
        s.len() < s.cap(),
    ensures
        s.pushed(item).len() > 0,
        s.pushed(item).items().last() == item,
        s.pushed(item).popped().items() == s.items(),
{
    lemma_pushed(s, item);
    assert(s.pushed(item).items().len() == s.pushed(item).len());
    lemma_popped(s.pushed(item));
    assert(s.items().push(item).drop_last() =~= s.items());
}

/// Stealing conserves the items: what leaves the source is exactly what
/// arrives at the destination, oldest first.
pub proof fn law_steal_conserves(
    src0: LifoState,
    dest0: LifoState,
    src1: LifoState,
    dest1: LifoState,
    count: nat,
    r: Result<usize, StealError>,
)
    requires
        src0.wf(),
        dest0.wf(),
        src0.idle(),
        count <= src0.len(),
        dest0.stealing() + dest0.len() + count <= dest0.cap(),
        steal_outcome(src0, dest0, src1, dest1, count, r),
    ensures
        src1.items().len() + dest1.items().len() == src0.items().len() + dest0.items().len(),
        dest1.items() == dest0.items() + src0.items().take(count as int),
        src0.items() == src0.items().take(count as int) + src1.items(),
{
    if count > 0 {
        assert(src0.items() =~= src0.items().take(count as int) + src0.items().skip(count as int));
    } else {
        assert(src0.items().take(0) =~= Seq::<usize>::empty());
        assert(src0.items() =~= Seq::<usize>::empty() + src0.items());
        assert(dest0.items() + Seq::<usize>::empty() =~= dest0.items());
    }
}

/// While a drain still holds booked items, the queue is not idle, so every
/// other steal or drain fails with `Busy`.
pub proof fn law_drain_blocks<const N: usize>(s: LifoState, d: Drain<N>)
    requires
        d.pending_in(s),
        d.remaining(s).len() > 0,
    ensures
        !s.idle(),
{
    lemma_dist_bounds(s.stealer_head, s.head);
}

/// A steal books no more than the policy asked for, no more than the cap
/// and no more than the available items.
pub proof fn law_book_count_bounds(s: LifoState, asked: usize, max: u32)
    ensures
        s.book_count(asked, max) <= asked,
        s.book_count(asked, max) <= max,
        s.book_count(asked, max) <= s.len(),
        asked > 0 && max > 0 && s.len() > 0 ==> s.book_count(asked, max) > 0,
{
}

} // verus!
