//! Bounded work-stealing queue with FIFO semantic for the worker and for
//! batch stealing.
//!
//! The worker pushes at the tail and pops at the head; stealers take
//! batches from the head too. The worker head and the stealer head share
//! one packed word. While a steal is in progress the worker head has
//! already moved past the booked items, and the stealer head still marks
//! where they start; once the booked items are moved out the stealer head
//! catches up with the worker head. Slots that hold no item are `None`.
use vstd::prelude::*;
use crate::st3::{
    dist, is_capacity, lemma_capacity, lemma_dist_add, lemma_dist_bounds, lemma_dist_reaches,
    lemma_dist_sub_start, lemma_mask_is_mod, lemma_same_slot, lemma_slot_offset,
    lemma_slots_distinct, lemma_unpack_packed, lemma_w32, lemma_w32_cong, lemma_wrap_slot,
    lemma_write_run, modulus, pack, unpack, w32, write_run, StealError,
};

verus! {

/// The state of a queue as the contracts see it.
pub struct FifoState<T> {
    /// Position of the first item that can be popped or stolen.
    pub worker_head: u32,
    /// Position of the first item of an unfinished steal (equal to
    /// `worker_head` when no steal is in progress).
    pub stealer_head: u32,
    /// Position one past the last item.
    pub tail: u32,
    /// The ring buffer.
    pub slots: Seq<Option<T>>,
}

impl<T> FifoState<T> {
    /// Capacity of the ring buffer.
    pub open spec fn cap(self) -> nat {
        self.slots.len()
    }

    /// Number of items that can be popped or stolen.
    pub open spec fn len(self) -> nat {
        dist(self.worker_head, self.tail)
    }

    /// Number of positions between the stealer head and the worker head:
    /// the items booked by an unfinished steal, and the positions the worker
    /// popped meanwhile.
    pub open spec fn stealing(self) -> nat {
        dist(self.stealer_head, self.worker_head)
    }

    /// The buffer slot that holds position `p`.
    pub open spec fn slot(self, p: int) -> Option<T> {
        self.slots[p % (self.cap() as int)]
    }

    /// The item held at position `p`.
    pub open spec fn value(self, p: int) -> T {
        self.slot(p)->Some_0
    }

    /// The items, oldest (at the head) first, newest (at the tail) last.
    pub open spec fn items(self) -> Seq<T> {
        Seq::new(self.len(), |i: int| self.value(self.worker_head + i))
    }

    /// Every position from the worker head to the tail holds an item.
    pub open spec fn filled(self) -> bool {
        forall|i: int| 0 <= i < self.len() ==> (#[trigger] self.slot(self.worker_head + i)) is Some
    }

    /// Well-formedness: a power-of-two buffer, at most a buffer's worth of
    /// positions from the stealer head to the tail, and an item at every
    /// position that can be popped.
    pub open spec fn wf(self) -> bool {
        &&& is_capacity(self.cap())
        &&& self.stealing() + self.len() <= self.cap()
        &&& self.filled()
    }

    /// No steal is in progress.
    pub open spec fn idle(self) -> bool {
        self.stealer_head == self.worker_head
    }

    /// The state after writing `item` at position `p`.
    pub open spec fn written(self, p: int, item: T) -> FifoState<T> {
        FifoState { slots: self.slots.update(p % (self.cap() as int), Some(item)), ..self }
    }

    /// The state after moving the item out of position `p`.
    pub open spec fn taken(self, p: int) -> FifoState<T> {
        FifoState { slots: self.slots.update(p % (self.cap() as int), None), ..self }
    }

    /// The state after writing `xs` at consecutive positions from `p`.
    pub open spec fn written_all(self, p: int, xs: Seq<T>) -> FifoState<T> {
        FifoState { slots: write_run(self.slots, p, somes(xs)), ..self }
    }

    /// The state after moving the items out of `k` consecutive positions
    /// from `p`.
    pub open spec fn taken_all(self, p: int, k: nat) -> FifoState<T> {
        FifoState { slots: write_run(self.slots, p, nones(k)), ..self }
    }

    /// The state after appending `xs` at the tail.
    pub open spec fn appended(self, xs: Seq<T>) -> FifoState<T> {
        FifoState { tail: w32(self.tail + xs.len()), ..self.written_all(self.tail as int, xs) }
    }

    /// The state after a successful push of `item`.
    pub open spec fn pushed(self, item: T) -> FifoState<T> {
        FifoState { tail: w32(self.tail + 1), ..self.written(self.tail as int, item) }
    }

    /// The state after a successful pop: the oldest item is moved out, and
    /// the stealer head follows the worker head when no steal is in
    /// progress.
    pub open spec fn popped(self) -> FifoState<T> {
        FifoState {
            worker_head: w32(self.worker_head + 1),
            stealer_head: if self.idle() {
                w32(self.stealer_head + 1)
            } else {
                self.stealer_head
            },
            ..self.taken(self.worker_head as int)
        }
    }

    /// The state after booking `count` items for stealing.
    pub open spec fn booked(self, count: nat) -> FifoState<T> {
        FifoState { worker_head: w32(self.worker_head + count), ..self }
    }

    /// The state after the booked items have been moved out.
    pub open spec fn released(self) -> FifoState<T> {
        FifoState { stealer_head: self.worker_head, ..self }
    }

    /// The number of items a steal books: what the policy asked for, capped
    /// by `max` and by the number of items.
    pub open spec fn book_count(self, asked: usize, max: u32) -> nat {
        let a = if asked < max { asked as nat } else { max as nat };
        if a < self.len() {
            a
        } else {
            self.len()
        }
    }
}

/// Each item as an occupied slot.
pub open spec fn somes<T>(xs: Seq<T>) -> Seq<Option<T>> {
    Seq::new(xs.len(), |i: int| Some(xs[i]))
}

/// `k` empty slots.
pub open spec fn nones<T>(k: nat) -> Seq<Option<T>> {
    Seq::new(k, |i: int| None::<T>)
}

/// Positions of a well-formed state, counted from the stealer head: the
/// worker head is `stealing()` and the tail `stealing() + len()` steps
/// further, so the slot of position `h + i` (or `t + i`) is the slot of
/// `stealer_head + stealing() + i` (or `+ len()` more).
proof fn lemma_frame<T>(s: FifoState<T>, i: int)
    requires
        s.wf(),
    ensures
        s.slot(s.worker_head + i) == s.slots[(s.stealer_head + s.stealing() + i) % (s.cap() as int)],
        s.slot(s.tail + i) == s.slots[(s.stealer_head + s.stealing() + s.len() + i) % (
        s.cap() as int)],
        (s.worker_head + i) % (s.cap() as int) == (s.stealer_head + s.stealing() + i) % (
        s.cap() as int),
        (s.tail + i) % (s.cap() as int) == (s.stealer_head + s.stealing() + s.len() + i) % (
        s.cap() as int),
{
    let n = s.cap();
    lemma_dist_reaches(s.stealer_head, s.worker_head);
    lemma_w32_cong(s.stealer_head + s.stealing(), s.worker_head);
    lemma_same_slot(s.worker_head + i, s.stealer_head + s.stealing() + i, n);
    lemma_dist_reaches(s.worker_head, s.tail);
    lemma_w32_cong(s.worker_head + s.len(), s.tail);
    lemma_same_slot(s.tail + i, s.stealer_head + s.stealing() + s.len() + i, n);
}

/// Offsets `0 <= i, j < cap` from one base position fall on the same slot
/// only when they are equal.
proof fn lemma_offsets<T>(s: FifoState<T>, i: int, j: int)
    requires
        is_capacity(s.cap()),
        0 <= i < s.cap(),
        0 <= j < s.cap(),
        i != j,
    ensures
        (s.stealer_head + i) % (s.cap() as int) != (s.stealer_head + j) % (s.cap() as int),
{
    lemma_capacity(s.cap());
    if i < j {
        lemma_slots_distinct(s.stealer_head as int, i, j, s.cap());
    } else {
        lemma_slots_distinct(s.stealer_head as int, j, i, s.cap());
    }
}

/// A push onto a queue with room appends the item and keeps the queue
/// well-formed.
pub proof fn lemma_pushed<T>(s: FifoState<T>, item: T)
    requires
        s.wf(),
        s.stealing() + s.len() < s.cap(),
    ensures
        s.pushed(item).wf(),
        s.pushed(item).stealing() == s.stealing(),
        s.pushed(item).len() == s.len() + 1,
        s.pushed(item).items() == s.items().push(item),
{
    let t = s.pushed(item);
    let n = s.cap();
    let a = s.stealing() as int;
    lemma_capacity(n);
    lemma_dist_add(s.worker_head, s.tail, 1);
    lemma_frame(s, 0);
    assert forall|i: int| 0 <= i < t.len() implies #[trigger] t.slot(t.worker_head + i) == somes(
        s.items().push(item),
    )[i] by {
        lemma_frame(s, i);
        if i < s.len() {
            lemma_offsets(s, a + i, a + s.len());
        }
    }
    assert(t.items() =~= s.items().push(item));
}

/// Appending at most the free room adds the items at the tail.
pub proof fn lemma_appended<T>(s: FifoState<T>, xs: Seq<T>)
    requires
        s.wf(),
        s.stealing() + s.len() + xs.len() <= s.cap(),
    ensures
        s.appended(xs).wf(),
        s.appended(xs).stealing() == s.stealing(),
        s.appended(xs).len() == s.len() + xs.len(),
        s.appended(xs).items() == s.items() + xs,
{
    let t = s.appended(xs);
    let n = s.cap();
    let a = s.stealing() as int;
    let k = xs.len();
    lemma_capacity(n);
    lemma_write_run(s.slots, s.tail as int, somes(xs));
    lemma_dist_add(s.worker_head, s.tail, k);
    assert forall|i: int| 0 <= i < t.len() implies #[trigger] t.slot(t.worker_head + i) == somes(
        s.items() + xs,
    )[i] by {
        lemma_frame(s, i);
        lemma_frame(s, i - s.len());
        if i < s.len() {
            crate::st3::lemma_slot_offset_back(s.tail as int, s.len() - i, n);
        } else {
            lemma_slot_offset(s.tail as int, i - s.len(), n);
        }
    }
    assert(t.items() =~= s.items() + xs);
}

/// A pop from a non-empty queue moves the oldest item out.
pub proof fn lemma_popped<T>(s: FifoState<T>)
    requires
        s.wf(),
        s.len() > 0,
    ensures
        s.popped().wf(),
        s.popped().len() == s.len() - 1,
        s.popped().stealing() == (if s.idle() { 0 } else { s.stealing() + 1 }),
        s.popped().items() == s.items().drop_first(),
        s.items()[0] == s.value(s.worker_head as int),
{
    let t = s.popped();
    let n = s.cap();
    let a = s.stealing() as int;
    lemma_capacity(n);
    lemma_dist_sub_start(s.worker_head, s.tail);
    if s.idle() {
        lemma_dist_bounds(w32(s.stealer_head + 1), w32(s.worker_head + 1));
    } else {
        lemma_dist_add(s.stealer_head, s.worker_head, 1);
    }
    lemma_frame(s, 0);
    lemma_wrap_slot(s.worker_head + 1, n);
    assert forall|i: int| 0 <= i < t.len() implies #[trigger] t.slot(t.worker_head + i) == somes(
        s.items().drop_first(),
    )[i] by {
        vstd::arithmetic::div_mod::lemma_add_mod_noop(s.worker_head + 1, i, n as int);
        vstd::arithmetic::div_mod::lemma_add_mod_noop(t.worker_head as int, i, n as int);
        lemma_frame(s, 1 + i);
        lemma_offsets(s, a, a + 1 + i);
    }
    assert(t.items() =~= s.items().drop_first());
}

/// Booking `k` items of an idle queue moves the worker head past them.
pub proof fn lemma_booked<T>(s: FifoState<T>, k: nat)
    requires
        s.wf(),
        s.idle(),
        0 < k <= s.len(),
    ensures
        s.booked(k).wf(),
        !s.booked(k).idle(),
        s.booked(k).stealing() == k,
        s.booked(k).len() == s.len() - k,
        s.booked(k).items() == s.items().skip(k as int),
        s.booked(k).stealer_head == s.worker_head,
        forall|i: int| 0 <= i < k ==> (#[trigger] s.slot(s.stealer_head + i)) is Some,
{
    let t = s.booked(k);
    let n = s.cap();
    lemma_capacity(n);
    lemma_dist_add(s.worker_head, s.worker_head, k);
    lemma_dist_bounds(s.worker_head, s.worker_head);
    lemma_dist_reaches(s.worker_head, s.tail);
    lemma_w32_cong(s.worker_head + s.len(), s.tail);
    assert(t.len() == s.len() - k);
    lemma_wrap_slot(s.worker_head + k, n);
    assert forall|i: int| 0 <= i < t.len() implies #[trigger] t.slot(t.worker_head + i) == s.slot(
        s.worker_head + k + i,
    ) && t.slot(t.worker_head + i) is Some by {
        vstd::arithmetic::div_mod::lemma_add_mod_noop(s.worker_head + k, i, n as int);
        vstd::arithmetic::div_mod::lemma_add_mod_noop(t.worker_head as int, i, n as int);
        assert(s.slot(s.worker_head + (k + i)) is Some);
        assert(s.worker_head + (k + i) == s.worker_head + k + i);
    }
    assert(t.items() =~= s.items().skip(k as int));
    assert(t.stealing() == k);
    assert(t.stealing() + t.len() <= t.cap());
    assert(t.filled());
    assert forall|i: int| 0 <= i < k implies (#[trigger] s.slot(s.stealer_head + i)) is Some by {
        assert(s.slot(s.worker_head + i) is Some);
    }
}

/// Releasing the booked items makes the queue idle again, its items unchanged.
pub proof fn lemma_released<T>(s: FifoState<T>)
    requires
        s.wf(),
    ensures
        s.released().wf(),
        s.released().idle(),
        s.released().len() == s.len(),
        s.released().items() == s.items(),
{
    lemma_dist_bounds(s.worker_head, s.worker_head);
    assert forall|i: int| 0 <= i < s.len() implies #[trigger] s.released().slot(
        s.worker_head + i,
    ) == s.slot(s.worker_head + i) by {}
    assert(s.released().items() =~= s.items());
}

/// Moving an item out of a position between the stealer head and the
/// worker head leaves the items alone.
pub proof fn lemma_taken_behind<T>(s: FifoState<T>, p: u32)
    requires
        s.wf(),
        dist(s.stealer_head, p) < s.stealing(),
    ensures
        s.taken(p as int).wf(),
        s.taken(p as int).items() == s.items(),
        s.taken(p as int).len() == s.len(),
        s.taken(p as int).stealing() == s.stealing(),
{
    let t = s.taken(p as int);
    let n = s.cap();
    let a = s.stealing() as int;
    let j = dist(s.stealer_head, p) as int;
    lemma_capacity(n);
    lemma_dist_reaches(s.stealer_head, p);
    lemma_w32_cong(s.stealer_head + j, p);
    lemma_same_slot(p as int, s.stealer_head + j, n);
    assert forall|i: int| 0 <= i < t.len() implies #[trigger] t.slot(t.worker_head + i) == s.slot(
        s.worker_head + i,
    ) by {
        lemma_frame(s, i);
        lemma_offsets(s, j, a + i);
    }
    assert(t.items() =~= s.items());
}

/// Moving the items out of the first `k` positions from the stealer head,
/// all before the worker head, leaves the items alone, and any position
/// further on keeps its slot.
pub proof fn lemma_cleared<T>(s: FifoState<T>, k: nat)
    requires
        s.wf(),
        k <= s.stealing(),
    ensures
        s.taken_all(s.stealer_head as int, k).wf(),
        s.taken_all(s.stealer_head as int, k).items() == s.items(),
        s.taken_all(s.stealer_head as int, k).len() == s.len(),
        s.taken_all(s.stealer_head as int, k).stealing() == s.stealing(),
        forall|j: int|
            k <= j < s.cap() ==> #[trigger] s.taken_all(s.stealer_head as int, k).slot(
                s.stealer_head + j,
            ) == s.slot(s.stealer_head + j),
{
    let t = s.taken_all(s.stealer_head as int, k);
    let n = s.cap();
    let a = s.stealing() as int;
    lemma_capacity(n);
    lemma_write_run(s.slots, s.stealer_head as int, nones::<T>(k));
    assert forall|j: int| k <= j < s.cap() implies #[trigger] t.slot(s.stealer_head + j) == s.slot(
        s.stealer_head + j,
    ) by {
        lemma_slot_offset(s.stealer_head as int, j, n);
    }
    assert forall|i: int| 0 <= i < t.len() implies #[trigger] t.slot(t.worker_head + i) == s.slot(
        s.worker_head + i,
    ) by {
        lemma_frame(s, i);
        lemma_slot_offset(s.stealer_head as int, a + i, n);
    }
    assert(t.items() =~= s.items());
}

/// The queue proper.
#[derive(Debug)]
pub struct Queue<T, const N: usize> {
    /// The worker head (upper half) and the stealer head (lower half).
    pub heads: u64,
    /// The ring buffer.
    pub buffer: Vec<Option<T>>,
    /// Position of the tail.
    pub tail: u32,
}

impl<T, const N: usize> View for Queue<T, N> {
    type V = FifoState<T>;

    open spec fn view(&self) -> FifoState<T> {
        FifoState {
            worker_head: (self.heads / (modulus() as u64)) as u32,
            stealer_head: (self.heads % (modulus() as u64)) as u32,
            tail: self.tail,
            slots: self.buffer@,
        }
    }
}

impl<T, const N: usize> Queue<T, N> {
    /// The buffer has `N` slots, and `N` is a valid capacity.
    pub open spec fn inv(&self) -> bool {
        &&& is_capacity(N as nat)
        &&& self@.cap() == N
    }

    /// Well-formedness: a buffer of `N` slots and a well-formed state.
    pub open spec fn wf(&self) -> bool {
        &&& self.inv()
        &&& self@.wf()
    }

    /// Creates an empty queue.
    pub fn new() -> (r: Self)
        requires
            is_capacity(N as nat),
        ensures
            r.wf(),
            r@.worker_head == 0 && r@.stealer_head == 0 && r@.tail == 0,
            r@.items() == Seq::<T>::empty(),
            r@.idle(),
            r@.slots == nones::<T>(N as nat),
    {
        let mut buffer: Vec<Option<T>> = Vec::new();
        let mut i: usize = 0;
        while i < N
            invariant
                i <= N,
                buffer@ == nones::<T>(i as nat),
            decreases N - i,
        {
            buffer.push(None);
            i += 1;
            proof {
                assert(buffer@ =~= nones::<T>(i as nat));
            }
        }
        let q = Queue { heads: 0, buffer, tail: 0 };
        proof {
            lemma_capacity(N as nat);
            lemma_unpack_packed(0, 0);
            lemma_dist_bounds(0, 0);
            assert(q@.items() =~= Seq::<T>::empty());
        }
        q
    }

    /// Moves the item out of the given position.
    fn read_at(&mut self, position: u32) -> (r: T)
        requires
            old(self).inv(),
            old(self)@.slot(position as int) is Some,
        ensures
            final(self).inv(),
            r == old(self)@.value(position as int),
            final(self)@ == old(self)@.taken(position as int),
    {
        proof {
            lemma_capacity(N as nat);
            lemma_mask_is_mod(position, N as nat);
        }
        let mask = (N - 1) as u32;
        let idx = (position & mask) as usize;
        let slot = self.buffer[idx].take();
        proof {
            assert(self.buffer@ =~= old(self)@.taken(position as int).slots);
        }
        slot.unwrap()
    }

    /// Writes an item at the given position.
    fn write_at(&mut self, position: u32, item: T)
        requires
            old(self).inv(),
        ensures
            final(self).inv(),
            final(self)@ == old(self)@.written(position as int, item),
    {
        proof {
            lemma_capacity(N as nat);
            lemma_mask_is_mod(position, N as nat);
        }
        let mask = (N - 1) as u32;
        let idx = (position & mask) as usize;
        self.buffer.set(idx, Some(item));
    }

    /// The capacity of the queue.
    fn capacity(&self) -> (r: u32)
        requires
            self.inv(),
        ensures
            r == N,
    {
        proof {
            lemma_capacity(N as nat);
        }
        N as u32
    }

    /// Books items for stealing: as many as `count_fn` asks for when given
    /// the number of available items, capped by `max_count` and by that
    /// number. Returns the stealer head and the count.
    #[verifier::spinoff_prover]
    fn book_items<C: Fn(usize) -> usize>(&mut self, count_fn: C, max_count: u32) -> (r: Result<
        (u32, u32),
        StealError,
    >)
        requires
            old(self).wf(),
            forall|n: usize| count_fn.requires((n,)),
        ensures
            final(self).wf(),
            !old(self)@.idle() ==> r == Err::<(u32, u32), StealError>(StealError::Busy)
                && final(self)@ == old(self)@,
            old(self)@.idle() && old(self)@.len() == 0 ==> r == Err::<(u32, u32), StealError>(
                StealError::Empty,
            ) && final(self)@ == old(self)@,
            old(self)@.idle() && old(self)@.len() > 0 ==> exists|asked: usize|
                {
                    &&& #[trigger] count_fn.ensures((old(self)@.len() as usize,), asked)
                    &&& book_outcome(old(self)@, final(self)@, old(self)@.book_count(asked, max_count), r)
                },
    {
        let (worker_head, stealer_head) = unpack(self.heads);
        if stealer_head != worker_head {
            return Err(StealError::Busy);
        }
        let tail = self.tail;
        let item_count = tail.wrapping_sub(worker_head);
        proof {
            lemma_dist_bounds(worker_head, tail);
        }
        assert(item_count == old(self)@.len());
        if item_count == 0 {
            return Err(StealError::Empty);
        }
        let asked = count_fn(item_count as usize);
        let capped = if asked < max_count as usize { asked } else { max_count as usize };
        let count = if (capped as u32) < item_count { capped as u32 } else { item_count };
        assert(count == old(self)@.book_count(asked, max_count));
        if count == 0 {
            assert(book_outcome(old(self)@, self@, count as nat, Err(StealError::Empty)));
            return Err(StealError::Empty);
        }
        let new_head = worker_head.wrapping_add(count);
        self.heads = pack(new_head, stealer_head);
        proof {
            lemma_w32(worker_head + count);
            lemma_unpack_packed(new_head, stealer_head);
            lemma_booked(old(self)@, count as nat);
        }
        assert(self@ == old(self)@.booked(count as nat));
        assert(book_outcome(old(self)@, self@, count as nat, Ok((stealer_head, count))));
        Ok((stealer_head, count))
    }
}

/// The result of a booking: nothing when the count is zero, otherwise the
/// items from the head on are booked.
pub open spec fn book_outcome<T>(
    pre: FifoState<T>,
    post: FifoState<T>,
    count: nat,
    r: Result<(u32, u32), StealError>,
) -> bool {
    &&& count == 0 ==> r == Err::<(u32, u32), StealError>(StealError::Empty) && post == pre
    &&& count > 0 ==> r == Ok::<(u32, u32), StealError>((pre.stealer_head, count as u32)) && post
        == pre.booked(count)
}

/// Handle for single-threaded FIFO push and pop operations.
#[derive(Debug)]
pub struct Worker<T, const N: usize> {
    /// The queue this worker owns.
    pub queue: Queue<T, N>,
}

impl<T, const N: usize> View for Worker<T, N> {
    type V = FifoState<T>;

    open spec fn view(&self) -> FifoState<T> {
        self.queue@
    }
}

impl<T, const N: usize> Worker<T, N> {
    /// Well-formedness of the owned queue.
    pub open spec fn wf(&self) -> bool {
        self.queue.wf()
    }

    /// Creates a worker handle for the given queue.
    pub fn new(queue: Queue<T, N>) -> (r: Self)
        ensures
            r.queue == queue,
    {
        Worker { queue }
    }

    /// Creates a stealer handle associated with this worker.
    pub fn stealer(&self) -> (r: Stealer<T, N>) {
        Stealer { marker: std::marker::PhantomData }
    }

    /// Returns the capacity of the queue.
    pub fn capacity(&self) -> (r: usize)
        requires
            self.wf(),
        ensures
            r == N,
    {
        self.queue.capacity() as usize
    }

    /// Returns the number of items that can still be pushed, counting the
    /// positions of an unfinished steal as occupied.
    pub fn spare_capacity(&self) -> (r: usize)
        requires
            self.wf(),
        ensures
            r == N - self@.stealing() - self@.len(),
    {
        let stealer_head = unpack(self.queue.heads).1;
        let tail = self.queue.tail;
        let len = tail.wrapping_sub(stealer_head);
        proof {
            lemma_capacity(N as nat);
            lemma_dist_bounds(stealer_head, tail);
            crate::st3::lemma_dist_compose(stealer_head, self@.worker_head, tail);
        }
        (self.queue.capacity() - len) as usize
    }

    /// Returns true if no item can be popped.
    pub fn is_empty(&self) -> (r: bool)
        requires
            self.wf(),
        ensures
            r == (self@.len() == 0),
            r == (self@.items().len() == 0),
    {
        let worker_head = unpack(self.queue.heads).0;
        let tail = self.queue.tail;
        proof {
            lemma_dist_bounds(worker_head, tail);
        }
        tail == worker_head
    }

    /// Attempts to push an item at the tail of the queue; fails, giving the
    /// item back, when the positions from the stealer head to the tail fill
    /// the buffer.
    pub fn push(&mut self, item: T) -> (r: Result<(), T>)
        requires
            old(self).wf(),
        ensures
            final(self).wf(),
            old(self)@.stealing() + old(self)@.len() >= N ==> r == Err::<(), T>(item)
                && final(self)@ == old(self)@,
            old(self)@.stealing() + old(self)@.len() < N ==> r == Ok::<(), T>(()) && final(self)@
                == old(self)@.pushed(item),
            old(self)@.stealing() + old(self)@.len() < N ==> final(self)@.items()
                == old(self)@.items().push(item),
    {
        let stealer_head = unpack(self.queue.heads).1;
        let tail = self.queue.tail;
        proof {
            lemma_capacity(N as nat);
            lemma_dist_bounds(stealer_head, tail);
            crate::st3::lemma_dist_compose(stealer_head, self@.worker_head, tail);
        }
        if tail.wrapping_sub(stealer_head) >= N as u32 {
            return Err(item);
        }
        self.queue.write_at(tail, item);
        self.queue.tail = tail.wrapping_add(1);
        proof {
            lemma_w32(tail + 1);
            lemma_pushed(old(self)@, item);
        }
        Ok(())
    }

    /// Attempts to pop the oldest item; returns `None` if the queue is empty.
    pub fn pop(&mut self) -> (r: Option<T>)
        requires
            old(self).wf(),
        ensures
            final(self).wf(),
            old(self)@.len() == 0 ==> r == None::<T> && final(self)@ == old(self)@,
            old(self)@.len() > 0 ==> r == Some(old(self)@.items()[0])
                && final(self)@ == old(self)@.popped(),
            old(self)@.len() > 0 ==> final(self)@.items() == old(self)@.items().drop_first(),
    {
        let (worker_head, stealer_head) = unpack(self.queue.heads);
        let tail = self.queue.tail;
        proof {
            lemma_dist_bounds(worker_head, tail);
        }
        if tail == worker_head {
            return None;
        }
        let next_stealer_head = if stealer_head == worker_head {
            stealer_head.wrapping_add(1)
        } else {
            stealer_head
        };
        let next_worker_head = worker_head.wrapping_add(1);
        self.queue.heads = pack(next_worker_head, next_stealer_head);
        proof {
            lemma_w32(worker_head + 1);
            lemma_w32(stealer_head + 1);
            lemma_unpack_packed(next_worker_head, next_stealer_head);
            lemma_frame(old(self)@, 0);
            lemma_popped(old(self)@);
        }
        let item = self.queue.read_at(worker_head);
        assert(self@ == old(self)@.popped());
        Some(item)
    }
}

impl<T, const N: usize> Worker<T, N> {
    /// Pushes the items at the tail, in order, until the positions from the
    /// stealer head to the tail fill the buffer; the items that do not fit
    /// are dropped.
    #[verifier::spinoff_prover]
    #[verifier::rlimit(40)]
    pub fn extend(&mut self, items: Vec<T>)
        requires
            old(self).wf(),
        ensures
            ({
                let room = (N - old(self)@.stealing() - old(self)@.len()) as nat;
                let k = if items@.len() < room { items@.len() } else { room };
                &&& final(self).wf()
                &&& final(self)@ == old(self)@.appended(items@.take(k as int))
                &&& final(self)@.items() == old(self)@.items() + items@.take(k as int)
            }),
    {
        let ghost all = items@;
        let ghost s0 = old(self)@;
        let stealer_head = unpack(self.queue.heads).1;
        let tail0 = self.queue.tail;
        let mut tail = tail0;
        let max_tail = stealer_head.wrapping_add(N as u32);
        let ghost room = dist(tail0, max_tail);
        proof {
            lemma_capacity(N as nat);
            lemma_w32(stealer_head + N);
            crate::st3::lemma_dist_compose(stealer_head, s0.worker_head, tail0);
            crate::st3::lemma_dist_rest(stealer_head, tail0, N as nat);
            lemma_dist_bounds(tail0, max_tail);
        }
        let mut rest = items;
        let mut stack: Vec<T> = Vec::new();
        while rest.len() > 0
            invariant
                stack@.len() + rest@.len() == all.len(),
                rest@ == all.take(rest@.len() as int),
                forall|j: int| 0 <= j < stack@.len() ==> #[trigger] stack@[j] == all[all.len() - 1 - j],
            decreases rest.len(),
        {
            let x = rest.pop().unwrap();
            stack.push(x);
            proof {
                assert(rest@ =~= all.take(rest@.len() as int));
            }
        }
        let mut i: usize = 0;
        proof {
            assert(somes(all.take(0)) =~= Seq::<Option<T>>::empty());
            assert(self@ == s0.written_all(tail0 as int, all.take(0)));
        }
        while stack.len() > 0 && tail != max_tail
            invariant
                self.queue.inv(),
                s0.wf(),
                s0.cap() == N,
                i <= all.len(),
                i <= room,
                room < modulus(),
                room == dist(tail0, max_tail),
                tail0 == s0.tail,
                stack@.len() == all.len() - i,
                forall|j: int| 0 <= j < stack@.len() ==> #[trigger] stack@[j] == all[all.len() - 1 - j],
                tail == w32(tail0 + i),
                self@ == s0.written_all(tail0 as int, all.take(i as int)),
            decreases stack.len(),
        {
            proof {
                lemma_dist_add(tail0, tail0, i as nat);
                lemma_dist_bounds(tail0, tail0);
                lemma_w32(tail0 + i);
            }
            let item = stack.pop().unwrap();
            assert(item == all[i as int]);
            self.queue.write_at(tail, item);
            proof {
                lemma_wrap_slot(tail0 + i, N as nat);
                let xs = all.take(i + 1);
                assert(somes(xs).drop_last() =~= somes(all.take(i as int)));
                assert(somes(xs).last() == Some(item));
                assert(write_run(s0.slots, tail0 as int, somes(xs)) == write_run(
                    s0.slots,
                    tail0 as int,
                    somes(xs).drop_last(),
                ).update((tail0 + somes(xs).len() - 1) % (s0.slots.len() as int), somes(xs).last()));
                assert(self@ == s0.written_all(tail0 as int, xs));
            }
            tail = tail.wrapping_add(1);
            i += 1;
            proof {
                lemma_w32(tail0 + i - 1 + 1);
                crate::st3::lemma_w32_add(tail0 + i - 1, 1);
            }
        }
        proof {
            lemma_dist_add(tail0, tail0, i as nat);
            lemma_dist_bounds(tail0, tail0);
            assert(i == (if all.len() < room { all.len() } else { room }));
        }
        self.queue.tail = tail;
        proof {
            assert(self@ == s0.appended(all.take(i as int)));
            lemma_appended(s0, all.take(i as int));
        }
    }
}

impl<T, const N: usize> Worker<T, N> {
    /// Books items for stealing and returns a handle over them: as many as
    /// `count_fn` asks for when given the number of available items. Until
    /// all of them are taken out, other stealing operations fail with
    /// `Busy`.
    pub fn drain<C: Fn(usize) -> usize>(&mut self, count_fn: C) -> (r: Result<
        Drain<T, N>,
        StealError,
    >)
        requires
            old(self).wf(),
            forall|n: usize| count_fn.requires((n,)),
        ensures
            final(self).wf(),
            !old(self)@.idle() ==> r == Err::<Drain<T, N>, StealError>(StealError::Busy)
                && final(self)@ == old(self)@,
            old(self)@.idle() && old(self)@.len() == 0 ==> r == Err::<Drain<T, N>, StealError>(
                StealError::Empty,
            ) && final(self)@ == old(self)@,
            old(self)@.idle() && old(self)@.len() > 0 ==> exists|asked: usize|
                {
                    &&& #[trigger] count_fn.ensures((old(self)@.len() as usize,), asked)
                    &&& drain_outcome(
                        old(self)@,
                        final(self)@,
                        old(self)@.book_count(asked, u32::MAX),
                        r,
                    )
                },
    {
        match self.queue.book_items(count_fn, u32::MAX) {
            Ok((head, count)) => {
                let d = Drain {
                    head,
                    to_head: head.wrapping_add(count),
                    marker: std::marker::PhantomData,
                };
                proof {
                    let asked = choose|asked: usize|
                        {
                            &&& #[trigger] count_fn.ensures((old(self)@.len() as usize,), asked)
                            &&& book_outcome(
                                old(self)@,
                                self@,
                                old(self)@.book_count(asked, u32::MAX),
                                Ok::<(u32, u32), StealError>((head, count)),
                            )
                        };
                    lemma_drain_fresh(old(self)@, count as nat, d);
                    assert(drain_outcome(
                        old(self)@,
                        self@,
                        old(self)@.book_count(asked, u32::MAX),
                        Ok::<Drain<T, N>, StealError>(d),
                    ));
                }
                Ok(d)
            },
            Err(e) => {
                proof {
                    if old(self)@.idle() && old(self)@.len() > 0 {
                        let asked = choose|asked: usize|
                            {
                                &&& #[trigger] count_fn.ensures((old(self)@.len() as usize,), asked)
                                &&& book_outcome(
                                    old(self)@,
                                    self@,
                                    old(self)@.book_count(asked, u32::MAX),
                                    Err::<(u32, u32), StealError>(e),
                                )
                            };
                        assert(drain_outcome(
                            old(self)@,
                            self@,
                            old(self)@.book_count(asked, u32::MAX),
                            Err::<Drain<T, N>, StealError>(e),
                        ));
                    }
                }
                Err(e)
            },
        }
    }
}

/// A fresh drain over `count` booked items lies within the booked range.
proof fn lemma_drain_fresh<T, const N: usize>(s: FifoState<T>, count: nat, d: Drain<T, N>)
    requires
        s.wf(),
        s.idle(),
        0 < count <= s.len(),
        d.head() == s.stealer_head,
        d.to_head() == w32(s.stealer_head + count),
    ensures
        d.pending_in(s.booked(count)),
        d.remaining(s.booked(count)) == s.items().take(count as int),
{
    lemma_booked(s, count);
    lemma_dist_bounds(s.worker_head, s.worker_head);
    lemma_dist_add(s.worker_head, s.worker_head, count);
    lemma_dist_bounds(d.to_head(), d.to_head());
    assert forall|i: int| 0 <= i < dist(d.head(), d.to_head()) implies (#[trigger] s.booked(
        count,
    ).slot(d.head() + i)) is Some by {
        assert(s.slot(s.stealer_head + i) is Some);
    }
    assert(d.remaining(s.booked(count)) =~= s.items().take(count as int));
}

/// The result of a drain: nothing when the count is zero, otherwise a
/// handle over the items booked from the head on.
pub open spec fn drain_outcome<T, const N: usize>(
    pre: FifoState<T>,
    post: FifoState<T>,
    count: nat,
    r: Result<Drain<T, N>, StealError>,
) -> bool {
    &&& count == 0 ==> r == Err::<Drain<T, N>, StealError>(StealError::Empty) && post == pre
    &&& count > 0 ==> r is Ok && post == pre.booked(count) && r->Ok_0.head() == pre.worker_head
        && r->Ok_0.to_head() == w32(pre.worker_head + count) && r->Ok_0.pending_in(post)
        && r->Ok_0.remaining(post) == pre.items().take(count as int)
}

/// The items booked by [`Worker::drain`], taken out one at a time, oldest
/// first.
#[derive(Debug)]
pub struct Drain<T, const N: usize> {
    head: u32,
    to_head: u32,
    marker: std::marker::PhantomData<T>,
}

impl<T, const N: usize> Drain<T, N> {
    /// Position of the next item to take out.
    pub closed spec fn head(self) -> u32 {
        self.head
    }

    /// Position one past the last booked item.
    pub closed spec fn to_head(self) -> u32 {
        self.to_head
    }

    /// This drain belongs to a queue in state `w`: either it is done, or its
    /// items lie between the stealer head and the worker head, each slot
    /// holding one.
    pub open spec fn pending_in(self, w: FifoState<T>) -> bool {
        ||| self.head() == self.to_head()
        ||| {
            &&& dist(w.stealer_head, self.head()) + dist(self.head(), self.to_head()) + dist(
                self.to_head(),
                w.worker_head,
            ) == w.stealing()
            &&& forall|i: int|
                0 <= i < dist(self.head(), self.to_head()) ==> (#[trigger] w.slot(
                    self.head() + i,
                )) is Some
        }
    }

    /// The items still to be taken out.
    pub open spec fn remaining(self, w: FifoState<T>) -> Seq<T> {
        Seq::new(dist(self.head(), self.to_head()), |i: int| w.value(self.head() + i))
    }

    /// Takes out the next booked item; the queue becomes idle again when the
    /// last one is taken.
    #[verifier::spinoff_prover]
    pub fn next(&mut self, worker: &mut Worker<T, N>) -> (r: Option<T>)
        requires
            old(worker).wf(),
            old(self).pending_in(old(worker)@),
        ensures
            final(worker).wf(),
            final(self).pending_in(final(worker)@),
            final(worker)@.items() == old(worker)@.items(),
            old(self).remaining(old(worker)@).len() == 0 ==> r == None::<T> && *final(self)
                == *old(self) && final(worker)@ == old(worker)@,
            old(self).remaining(old(worker)@).len() > 0 ==> r == Some(
                old(self).remaining(old(worker)@)[0],
            ) && final(self).remaining(final(worker)@) == old(self).remaining(
                old(worker)@,
            ).drop_first(),
            old(self).remaining(old(worker)@).len() == 1 ==> final(worker)@ == old(
                worker,
            )@.taken(old(self).head() as int).released(),
            old(self).remaining(old(worker)@).len() > 1 ==> final(worker)@ == old(worker)@.taken(
                old(self).head() as int,
            ),
    {
        proof {
            lemma_dist_bounds(self.head, self.to_head);
        }
        if self.head == self.to_head {
            return None;
        }
        let ghost w = worker@;
        let ghost c = self.head;
        let ghost n = N as nat;
        proof {
            lemma_capacity(n);
            assert(w.slot(c + 0) is Some);
            lemma_dist_reaches(c, self.to_head);
            lemma_taken_behind(w, c);
        }
        let item = worker.queue.read_at(self.head);
        self.head = self.head.wrapping_add(1);
        proof {
            lemma_w32(c + 1);
            lemma_dist_add(w.stealer_head, c, 1);
            lemma_dist_sub_start(c, self.to_head);
            lemma_wrap_slot(c + 1, n);
        }
        if self.head == self.to_head {
            let worker_head = unpack(worker.queue.heads).0;
            worker.queue.heads = pack(worker_head, worker_head);
            proof {
                lemma_unpack_packed(worker_head, worker_head);
                lemma_released(w.taken(c as int));
                assert(worker@ == w.taken(c as int).released());
            }
        }
        proof {
            assert forall|i: int| 0 <= i < dist(self.head, self.to_head) implies #[trigger] worker@.slot(
                self.head + i,
            ) == w.slot(c + (1 + i)) by {
                vstd::arithmetic::div_mod::lemma_add_mod_noop(c + 1, i, n as int);
                vstd::arithmetic::div_mod::lemma_add_mod_noop(self.head as int, i, n as int);
                lemma_slots_distinct(c as int, 0, 1 + i, n);
                assert(c + (1 + i) == c + 1 + i);
            }
            assert(self.remaining(worker@) =~= old(self).remaining(w).drop_first());
        }
        Some(item)
    }

    /// The number of items still to be taken out, as a lower and upper bound.
    pub fn size_hint(&self) -> (r: (usize, Option<usize>))
        ensures
            r.0 == dist(self.head(), self.to_head()),
            r.1 == Some(r.0),
    {
        proof {
            lemma_dist_bounds(self.head, self.to_head);
        }
        let sz = self.to_head.wrapping_sub(self.head) as usize;
        (sz, Some(sz))
    }

    /// Takes out all remaining booked items, in order, leaving the queue
    /// idle when there were any.
    #[verifier::spinoff_prover]
    #[verifier::rlimit(40)]
    pub fn finish(&mut self, worker: &mut Worker<T, N>) -> (r: Vec<T>)
        requires
            old(worker).wf(),
            old(self).pending_in(old(worker)@),
        ensures
            final(worker).wf(),
            r@ == old(self).remaining(old(worker)@),
            final(worker)@.items() == old(worker)@.items(),
            old(self).remaining(old(worker)@).len() > 0 ==> final(worker)@.idle(),
            final(self).pending_in(final(worker)@),
            final(self).remaining(final(worker)@).len() == 0,
    {
        let mut out: Vec<T> = Vec::new();
        let ghost all = self.remaining(worker@);
        let ghost w0 = worker@;
        proof {
            assert(out@ + self.remaining(worker@) =~= all);
        }
        loop
            invariant
                worker.wf(),
                self.pending_in(worker@),
                out@ + self.remaining(worker@) == all,
                all == old(self).remaining(old(worker)@),
                w0 == old(worker)@,
                worker@.items() == w0.items(),
                all.len() > 0 && self.remaining(worker@).len() == 0 ==> worker@.idle(),
            decreases self.remaining(worker@).len(),
        {
            match self.next(worker) {
                Some(item) => {
                    out.push(item);
                    proof {
                        assert(out@ + self.remaining(worker@) =~= all);
                    }
                },
                None => {
                    proof {
                        assert(out@ =~= all);
                    }
                    return out;
                },
            }
        }
    }
}

/// A handle for stealing operations. The queue it steals from is the
/// worker passed to its methods.
#[derive(Debug)]
pub struct Stealer<T, const N: usize> {
    marker: std::marker::PhantomData<T>,
}

/// Writing a run of fewer than `j + 1` slots from `p` leaves the slot of
/// position `p + j` alone, for `j` below the capacity.
proof fn lemma_run_beyond<T>(slots: Seq<Option<T>>, p: int, xs: Seq<Option<T>>, j: int)
    requires
        slots.len() > 0,
        xs.len() <= j < slots.len(),
    ensures
        write_run(slots, p, xs)[(p + j) % (slots.len() as int)] == slots[(p + j) % (
        slots.len() as int)],
        write_run(slots, p, xs).len() == slots.len(),
{
    lemma_write_run(slots, p, xs);
    lemma_slot_offset(p, j, slots.len());
}

impl<T, const N: usize> Queue<T, N> {
    /// Moves `count` items out of consecutive positions of `src`, starting
    /// at `from`, into consecutive positions of this queue, starting at `to`.
    fn move_from(&mut self, src: &mut Queue<T, N>, from: u32, to: u32, count: u32)
        requires
            old(self).inv(),
            old(src).inv(),
            count <= N,
            forall|i: int| 0 <= i < count ==> (#[trigger] old(src)@.slot(from + i)) is Some,
        ensures
            final(self).inv(),
            final(src).inv(),
            final(self)@ == old(self)@.written_all(
                to as int,
                Seq::new(count as nat, |i: int| old(src)@.value(from + i)),
            ),
            final(src)@ == old(src)@.taken_all(from as int, count as nat),
    {
        let ghost s0 = src@;
        let ghost d0 = self@;
        let ghost xs = Seq::new(count as nat, |i: int| s0.value(from + i));
        let mut offset: u32 = 0;
        proof {
            assert(somes(xs.take(0)) =~= Seq::<Option<T>>::empty());
            assert(nones::<T>(0) =~= Seq::<Option<T>>::empty());
        }
        while offset < count
            invariant
                self.inv(),
                src.inv(),
                s0.cap() == N,
                d0.cap() == N,
                count <= N,
                offset <= count,
                forall|i: int| 0 <= i < count ==> (#[trigger] s0.slot(from + i)) is Some,
                xs == Seq::new(count as nat, |i: int| s0.value(from + i)),
                self@ == d0.written_all(to as int, xs.take(offset as int)),
                src@ == s0.taken_all(from as int, offset as nat),
            decreases count - offset,
        {
            proof {
                lemma_capacity(N as nat);
                lemma_w32(from + offset);
                lemma_w32(to + offset);
                lemma_wrap_slot(from + offset, N as nat);
                lemma_wrap_slot(to + offset, N as nat);
                lemma_run_beyond(s0.slots, from as int, nones::<T>(offset as nat), offset as int);
                assert(s0.slot(from + offset) is Some);
            }
            let item = src.read_at(from.wrapping_add(offset));
            self.write_at(to.wrapping_add(offset), item);
            proof {
                let ys = xs.take(offset + 1);
                assert(somes(ys).drop_last() =~= somes(xs.take(offset as int)));
                assert(somes(ys).last() == Some(item));
                assert(write_run(d0.slots, to as int, somes(ys)) == write_run(
                    d0.slots,
                    to as int,
                    somes(ys).drop_last(),
                ).update((to + somes(ys).len() - 1) % (d0.slots.len() as int), somes(ys).last()));
                let zs = nones::<T>((offset + 1) as nat);
                assert(zs.drop_last() =~= nones::<T>(offset as nat));
                assert(write_run(s0.slots, from as int, zs) == write_run(
                    s0.slots,
                    from as int,
                    zs.drop_last(),
                ).update((from + zs.len() - 1) % (s0.slots.len() as int), zs.last()));
            }
            offset += 1;
        }
        proof {
            assert(xs.take(count as int) =~= xs);
        }
    }
}

/// The room left in `dest` once its items and the positions of an
/// unfinished steal are counted.
pub open spec fn free_room<T>(dest: FifoState<T>) -> nat {
    (dest.cap() - dest.stealing() - dest.len()) as nat
}

/// The result of a steal of `count` items from `src` into `dest`: nothing
/// when the count is zero, otherwise the oldest `count` items of `src` are
/// appended to `dest`.
pub open spec fn steal_outcome<T>(
    src0: FifoState<T>,
    dest0: FifoState<T>,
    src1: FifoState<T>,
    dest1: FifoState<T>,
    count: nat,
    r: Result<usize, StealError>,
) -> bool {
    &&& count == 0 ==> r == Err::<usize, StealError>(StealError::Empty) && src1 == src0 && dest1
        == dest0
    &&& count > 0 ==> {
        &&& r == Ok::<usize, StealError>(count as usize)
        &&& src1 == src0.booked(count).taken_all(src0.stealer_head as int, count).released()
        &&& dest1 == dest0.appended(src0.items().take(count as int))
        &&& src1.items() == src0.items().skip(count as int)
        &&& dest1.items() == dest0.items() + src0.items().take(count as int)
    }
}

/// The result of a steal-and-pop of `count` items from `src` into `dest`:
/// nothing when the count is zero, otherwise the newest of the stolen items
/// is returned and the others are appended to `dest`.
pub open spec fn steal_and_pop_outcome<T>(
    src0: FifoState<T>,
    dest0: FifoState<T>,
    src1: FifoState<T>,
    dest1: FifoState<T>,
    count: nat,
    r: Result<(T, usize), StealError>,
) -> bool {
    &&& count == 0 ==> r == Err::<(T, usize), StealError>(StealError::Empty) && src1 == src0
        && dest1 == dest0
    &&& count > 0 ==> {
        &&& r == Ok::<(T, usize), StealError>((src0.items()[count - 1], (count - 1) as usize))
        &&& src1 == src0.booked(count).taken_all(src0.stealer_head as int, count).released()
        &&& dest1 == dest0.appended(src0.items().take(count - 1))
        &&& src1.items() == src0.items().skip(count as int)
        &&& dest1.items() == dest0.items() + src0.items().take(count - 1)
    }
}

/// After booking `k` items of `src0`, moving them out and releasing the
/// queue leaves the items after them.
proof fn lemma_moved_out<T>(src0: FifoState<T>, k: nat)
    requires
        src0.wf(),
        src0.idle(),
        0 < k <= src0.len(),
    ensures
        src0.booked(k).taken_all(src0.stealer_head as int, k).released().wf(),
        src0.booked(k).taken_all(src0.stealer_head as int, k).released().items() == src0.items().skip(
            k as int,
        ),
        Seq::new(k, |i: int| src0.booked(k).value(src0.stealer_head + i)) == src0.items().take(
            k as int,
        ),
        forall|i: int| 0 <= i < k ==> (#[trigger] src0.booked(k).slot(src0.stealer_head + i)) is Some,
{
    let b = src0.booked(k);
    lemma_booked(src0, k);
    lemma_cleared(b, k);
    lemma_released(b.taken_all(src0.stealer_head as int, k));
    assert(Seq::new(k, |i: int| b.value(src0.stealer_head + i)) =~= src0.items().take(k as int));
    assert forall|i: int| 0 <= i < k implies (#[trigger] b.slot(src0.stealer_head + i)) is Some by {
        assert(src0.slot(src0.stealer_head + i) is Some);
    }
}

impl<T, const N: usize> Stealer<T, N> {
    /// Attempts to steal items from the head of `src` and move them to the
    /// tail of `dest`: as many as `count_fn` asks for when given the number
    /// of available items, capped by the free room of `dest`. Returns the
    /// number of items moved.
    #[verifier::spinoff_prover]
    #[verifier::rlimit(60)]
    pub fn steal<C: Fn(usize) -> usize>(
        &self,
        src: &mut Worker<T, N>,
        dest: &mut Worker<T, N>,
        count_fn: C,
    ) -> (r: Result<usize, StealError>)
        requires
            old(src).wf(),
            old(dest).wf(),
            forall|n: usize| count_fn.requires((n,)),
        ensures
            final(src).wf(),
            final(dest).wf(),
            !old(src)@.idle() ==> r == Err::<usize, StealError>(StealError::Busy) && final(src)@
                == old(src)@ && final(dest)@ == old(dest)@,
            old(src)@.idle() && old(src)@.len() == 0 ==> r == Err::<usize, StealError>(
                StealError::Empty,
            ) && final(src)@ == old(src)@ && final(dest)@ == old(dest)@,
            old(src)@.idle() && old(src)@.len() > 0 ==> exists|asked: usize|
                {
                    &&& #[trigger] count_fn.ensures((old(src)@.len() as usize,), asked)
                    &&& steal_outcome(
                        old(src)@,
                        old(dest)@,
                        final(src)@,
                        final(dest)@,
                        old(src)@.book_count(asked, free_room(old(dest)@) as u32),
                        r,
                    )
                },
    {
        let dest_tail = dest.queue.tail;
        let dest_stealer_head = unpack(dest.queue.heads).1;
        proof {
            lemma_capacity(N as nat);
            lemma_dist_bounds(dest_stealer_head, dest_tail);
            crate::st3::lemma_dist_compose(dest_stealer_head, old(dest)@.worker_head, dest_tail);
        }
        let dest_free_capacity = N as u32 - dest_tail.wrapping_sub(dest_stealer_head);
        assert(dest_free_capacity == free_room(old(dest)@));
        let (stealer_head, transfer_count) = match src.queue.book_items(
            count_fn,
            dest_free_capacity,
        ) {
            Ok(booked) => booked,
            Err(e) => {
                proof {
                    if old(src)@.idle() && old(src)@.len() > 0 {
                        let asked = choose|asked: usize|
                            {
                                &&& #[trigger] count_fn.ensures((old(src)@.len() as usize,), asked)
                                &&& book_outcome(
                                    old(src)@,
                                    src@,
                                    old(src)@.book_count(asked, dest_free_capacity),
                                    Err::<(u32, u32), StealError>(e),
                                )
                            };
                        assert(steal_outcome(
                            old(src)@,
                            old(dest)@,
                            src@,
                            dest@,
                            old(src)@.book_count(asked, dest_free_capacity),
                            Err::<usize, StealError>(e),
                        ));
                    }
                }
                return Err(e);
            },
        };
        let ghost asked = choose|asked: usize|
            {
                &&& #[trigger] count_fn.ensures((old(src)@.len() as usize,), asked)
                &&& book_outcome(
                    old(src)@,
                    src@,
                    old(src)@.book_count(asked, dest_free_capacity),
                    Ok::<(u32, u32), StealError>((stealer_head, transfer_count)),
                )
            };
        let ghost k = transfer_count as nat;
        let ghost moved = Seq::new(k, |i: int| src@.value(stealer_head + i));
        proof {
            lemma_moved_out(old(src)@, k);
        }
        dest.queue.move_from(&mut src.queue, stealer_head, dest_tail, transfer_count);
        dest.queue.tail = dest_tail.wrapping_add(transfer_count);
        let worker_head = unpack(src.queue.heads).0;
        src.queue.heads = pack(worker_head, worker_head);
        proof {
            lemma_w32(dest_tail + transfer_count);
            lemma_unpack_packed(worker_head, worker_head);
            assert(dest@ == old(dest)@.appended(moved));
            assert(src@ == old(src)@.booked(k).taken_all(old(src)@.stealer_head as int, k).released());
            lemma_appended(old(dest)@, moved);
            assert(steal_outcome(
                old(src)@,
                old(dest)@,
                src@,
                dest@,
                old(src)@.book_count(asked, dest_free_capacity),
                Ok::<usize, StealError>(transfer_count as usize),
            ));
        }
        Ok(transfer_count as usize)
    }
}

impl<T, const N: usize> Stealer<T, N> {
    /// Attempts to steal items from the head of `src`, returning the newest
    /// of them directly and moving the others to the tail of `dest`: as many
    /// as `count_fn` asks for when given the number of available items,
    /// capped by one more than the free room of `dest`. Returns the item and
    /// the number of items moved.
    #[verifier::spinoff_prover]
    #[verifier::rlimit(60)]
    pub fn steal_and_pop<C: Fn(usize) -> usize>(
        &self,
        src: &mut Worker<T, N>,
        dest: &mut Worker<T, N>,
        count_fn: C,
    ) -> (r: Result<(T, usize), StealError>)
        requires
            old(src).wf(),
            old(dest).wf(),
            forall|n: usize| count_fn.requires((n,)),
        ensures
            final(src).wf(),
            final(dest).wf(),
            !old(src)@.idle() ==> r == Err::<(T, usize), StealError>(StealError::Busy)
                && final(src)@ == old(src)@ && final(dest)@ == old(dest)@,
            old(src)@.idle() && old(src)@.len() == 0 ==> r == Err::<(T, usize), StealError>(
                StealError::Empty,
            ) && final(src)@ == old(src)@ && final(dest)@ == old(dest)@,
            old(src)@.idle() && old(src)@.len() > 0 ==> exists|asked: usize|
                {
                    &&& #[trigger] count_fn.ensures((old(src)@.len() as usize,), asked)
                    &&& steal_and_pop_outcome(
                        old(src)@,
                        old(dest)@,
                        final(src)@,
                        final(dest)@,
                        old(src)@.book_count(asked, (free_room(old(dest)@) + 1) as u32),
                        r,
                    )
                },
    {
        let dest_tail = dest.queue.tail;
        let dest_stealer_head = unpack(dest.queue.heads).1;
        proof {
            lemma_capacity(N as nat);
            lemma_dist_bounds(dest_stealer_head, dest_tail);
            crate::st3::lemma_dist_compose(dest_stealer_head, old(dest)@.worker_head, dest_tail);
        }
        let dest_free_capacity = dest.queue.capacity() - dest_tail.wrapping_sub(dest_stealer_head);
        assert(dest_free_capacity + 1 == free_room(old(dest)@) + 1);
        let (stealer_head, count) = match src.queue.book_items(count_fn, dest_free_capacity + 1) {
            Ok(booked) => booked,
            Err(e) => {
                proof {
                    if old(src)@.idle() && old(src)@.len() > 0 {
                        let asked = choose|asked: usize|
                            {
                                &&& #[trigger] count_fn.ensures((old(src)@.len() as usize,), asked)
                                &&& book_outcome(
                                    old(src)@,
                                    src@,
                                    old(src)@.book_count(asked, (dest_free_capacity + 1) as u32),
                                    Err::<(u32, u32), StealError>(e),
                                )
                            };
                        assert(steal_and_pop_outcome(
                            old(src)@,
                            old(dest)@,
                            src@,
                            dest@,
                            old(src)@.book_count(asked, (dest_free_capacity + 1) as u32),
                            Err::<(T, usize), StealError>(e),
                        ));
                    }
                }
                return Err(e);
            },
        };
        let ghost asked = choose|asked: usize|
            {
                &&& #[trigger] count_fn.ensures((old(src)@.len() as usize,), asked)
                &&& book_outcome(
                    old(src)@,
                    src@,
                    old(src)@.book_count(asked, (dest_free_capacity + 1) as u32),
                    Ok::<(u32, u32), StealError>((stealer_head, count)),
                )
            };
        let transfer_count = count - 1;
        let ghost k = count as nat;
        let ghost b = src@;
        let ghost all = Seq::new(k, |i: int| b.value(stealer_head + i));
        let ghost moved = Seq::new((k - 1) as nat, |i: int| b.value(stealer_head + i));
        proof {
            lemma_moved_out(old(src)@, k);
        }
        dest.queue.move_from(&mut src.queue, stealer_head, dest_tail, transfer_count);
        proof {
            lemma_w32(stealer_head + transfer_count);
            lemma_wrap_slot(stealer_head + transfer_count, N as nat);
            lemma_run_beyond(
                b.slots,
                stealer_head as int,
                nones::<T>(transfer_count as nat),
                transfer_count as int,
            );
            assert(b.slot(stealer_head + transfer_count) is Some);
        }
        let last_item = src.queue.read_at(stealer_head.wrapping_add(transfer_count));
        dest.queue.tail = dest_tail.wrapping_add(transfer_count);
        let worker_head = unpack(src.queue.heads).0;
        src.queue.heads = pack(worker_head, worker_head);
        proof {
            lemma_w32(dest_tail + transfer_count);
            lemma_unpack_packed(worker_head, worker_head);
            let zs = nones::<T>(k);
            assert(zs.drop_last() =~= nones::<T>(transfer_count as nat));
            assert(write_run(b.slots, stealer_head as int, zs) == write_run(
                b.slots,
                stealer_head as int,
                zs.drop_last(),
            ).update((stealer_head + zs.len() - 1) % (b.slots.len() as int), zs.last()));
            assert(last_item == all[k - 1]);
            assert(moved =~= all.take(k - 1));
            assert(dest@ == old(dest)@.appended(moved));
            assert(src@ == old(src)@.booked(k).taken_all(old(src)@.stealer_head as int, k).released());
            assert(old(src)@.items().take(k - 1) =~= moved);
            lemma_appended(old(dest)@, moved);
            assert(steal_and_pop_outcome(
                old(src)@,
                old(dest)@,
                src@,
                dest@,
                old(src)@.book_count(asked, (dest_free_capacity + 1) as u32),
                Ok::<(T, usize), StealError>((last_item, transfer_count as usize)),
            ));
        }
        Ok((last_item, transfer_count as usize))
    }
}

} // verus!

verus! {

/// First in, first out: a pushed item goes behind all items already in the
/// queue, and a pop takes the oldest one.
pub proof fn law_first_in_first_out<T>(s: FifoState<T>, item: T)
    requires
        s.wf(),
        s.stealing() + s.len() < s.cap(),
    ensures
        s.pushed(item).items().last() == item,
        s.pushed(item).items()[0] == (if s.len() == 0 { item } else { s.items()[0] }),
        s.pushed(item).popped().items() == s.items().push(item).drop_first(),
{
    lemma_pushed(s, item);
    lemma_popped(s.pushed(item));
}

/// The state after pushing the items of `xs` one by one, oldest first.
pub open spec fn pushed_all<T>(s: FifoState<T>, xs: Seq<T>) -> FifoState<T>
    decreases xs.len(),
{
    if xs.len() == 0 {
        s
    } else {
        pushed_all(s, xs.drop_last()).pushed(xs.last())
    }
}

/// The state after `k` pops.
pub open spec fn popped_n<T>(s: FifoState<T>, k: nat) -> FifoState<T>
    decreases k,
{
    if k == 0 {
        s
    } else {
        popped_n(s, (k - 1) as nat).popped()
    }
}

/// A run of pushes that fits the free room is accepted push by push: before
/// each push there is room, and afterwards the items are the old ones
/// followed by the pushed ones, in push order.
pub proof fn law_push_run<T>(s: FifoState<T>, xs: Seq<T>)
    requires
        s.wf(),
        s.stealing() + s.len() + xs.len() <= s.cap(),
    ensures
        pushed_all(s, xs).wf(),
        pushed_all(s, xs).cap() == s.cap(),
        pushed_all(s, xs).stealing() == s.stealing(),
        pushed_all(s, xs).len() == s.len() + xs.len(),
        pushed_all(s, xs).items() == s.items() + xs,
        forall|i: int|
            0 <= i < xs.len() ==> #[trigger] pushed_all(s, xs.take(i)).stealing() + pushed_all(
                s,
                xs.take(i),
            ).len() < s.cap(),
    decreases xs.len(),
{
    if xs.len() > 0 {
        let ys = xs.drop_last();
        law_push_run(s, ys);
        lemma_pushed(pushed_all(s, ys), xs.last());
        assert(pushed_all(s, xs).items() =~= s.items() + xs);
        assert forall|i: int| 0 <= i < xs.len() implies #[trigger] pushed_all(s, xs.take(i)).stealing()
            + pushed_all(s, xs.take(i)).len() < s.cap() by {
            if i < ys.len() {
                assert(xs.take(i) =~= ys.take(i));
            } else {
                assert(xs.take(i) =~= ys);
            }
        }
    } else {
        assert(s.items() + xs =~= s.items());
    }
}

/// Pops take the items oldest first: after `k` pops the items are the old
/// ones without the first `k`, and the pop after them returns the `k`-th.
pub proof fn law_pop_run<T>(s: FifoState<T>, k: nat)
    requires
        s.wf(),
        k <= s.len(),
    ensures
        popped_n(s, k).wf(),
        popped_n(s, k).len() == s.len() - k,
        popped_n(s, k).items() == s.items().skip(k as int),
        k < s.len() ==> popped_n(s, k).items()[0] == s.items()[k as int],
        k == s.len() ==> popped_n(s, k).len() == 0,
    decreases k,
{
    if k > 0 {
        law_pop_run(s, (k - 1) as nat);
        lemma_popped(popped_n(s, (k - 1) as nat));
        assert(popped_n(s, k).items() =~= s.items().skip(k as int));
    } else {
        assert(s.items().skip(0) =~= s.items());
    }
}

/// First in, first out over runs: the items pushed one by one onto an empty
/// queue come out of as many pops in push order, and the queue is then
/// empty, so the next pop returns nothing.
pub proof fn law_push_then_pop_runs<T>(s: FifoState<T>, xs: Seq<T>, k: nat)
    requires
        s.wf(),
        s.len() == 0,
        s.stealing() + xs.len() <= s.cap(),
        k <= xs.len(),
    ensures
        k < xs.len() ==> popped_n(pushed_all(s, xs), k).items()[0] == xs[k as int],
        k == xs.len() ==> popped_n(pushed_all(s, xs), k).len() == 0,
{
    law_push_run(s, xs);
    assert(s.items() =~= Seq::<T>::empty());
    assert(s.items() + xs =~= xs);
    law_pop_run(pushed_all(s, xs), k);
}

/// The spare room is exactly what a run of pushes can fill: after that many
/// accepted pushes the positions from the stealer head to the tail fill the
/// buffer, so the next push is refused.
pub proof fn law_spare_capacity_fills<T>(s: FifoState<T>, xs: Seq<T>)
    requires
        s.wf(),
        xs.len() == s.cap() - s.stealing() - s.len(),
    ensures
        forall|i: int|
            0 <= i < xs.len() ==> #[trigger] pushed_all(s, xs.take(i)).stealing() + pushed_all(
                s,
                xs.take(i),
            ).len() < s.cap(),
        pushed_all(s, xs).stealing() + pushed_all(s, xs).len() == s.cap(),
{
    law_push_run(s, xs);
}

/// Stealing conserves the items: what leaves the source is exactly what
/// arrives at the destination, oldest first.
pub proof fn law_steal_conserves<T>(
    src0: FifoState<T>,
    dest0: FifoState<T>,
    src1: FifoState<T>,
    dest1: FifoState<T>,
    count: nat,
    r: Result<usize, StealError>,
)
    requires
        src0.wf(),
        count <= src0.len(),
        steal_outcome(src0, dest0, src1, dest1, count, r),
    ensures
        src1.items().len() + dest1.items().len() == src0.items().len() + dest0.items().len(),
        dest1.items() == dest0.items() + src0.items().take(count as int),
        src0.items() == src0.items().take(count as int) + src1.items(),
{
    if count > 0 {
        assert(src0.items() =~= src0.items().take(count as int) + src0.items().skip(count as int));
    } else {
        assert(src0.items().take(0) =~= Seq::<T>::empty());
        assert(src0.items() =~= Seq::<T>::empty() + src0.items());
        assert(dest0.items() + Seq::<T>::empty() =~= dest0.items());
    }
}

/// While a drain still holds booked items, the queue is not idle, so every
/// other steal or drain fails with `Busy`.
pub proof fn law_drain_blocks<T, const N: usize>(s: FifoState<T>, d: Drain<T, N>)
    requires
        s.wf(),
        d.pending_in(s),
        d.remaining(s).len() > 0,
    ensures
        !s.idle(),
{
    lemma_dist_bounds(s.stealer_head, s.worker_head);
}

/// When a drain takes its last item the queue is released: it is idle
/// again, so steals and drains no longer fail with `Busy`, and its items
/// are unchanged.
pub proof fn law_drain_end_releases<T>(s: FifoState<T>, p: int)
    ensures
        s.taken(p).released().idle(),
        s.taken(p).released().worker_head == s.worker_head,
        s.taken(p).released().tail == s.tail,
{
}

/// The worker may pop while a drain is under way: the drain keeps its
/// items, and the popped item is never one of them.
pub proof fn law_pop_during_drain<T, const N: usize>(s: FifoState<T>, d: Drain<T, N>)
    requires
        s.wf(),
        s.len() > 0,
        d.pending_in(s),
    ensures
        d.pending_in(s.popped()),
        d.remaining(s.popped()) == d.remaining(s),
{
    let n = s.cap();
    let t = s.popped();
    lemma_capacity(n);
    lemma_dist_bounds(d.head(), d.to_head());
    if d.head() != d.to_head() {
        let a = dist(s.stealer_head, d.head()) as int;
        let m = dist(d.head(), d.to_head()) as int;
        lemma_dist_bounds(s.stealer_head, s.worker_head);
        lemma_dist_add(d.to_head(), s.worker_head, 1);
        lemma_dist_add(s.stealer_head, s.worker_head, 1);
        lemma_dist_reaches(s.stealer_head, d.head());
        lemma_w32_cong(s.stealer_head + a, d.head());
        lemma_frame(s, 0);
        assert forall|i: int| 0 <= i < m implies #[trigger] t.slot(d.head() + i) == s.slot(
            d.head() + i,
        ) by {
            lemma_same_slot(d.head() + i, s.stealer_head + (a + i), n);
            lemma_offsets(s, a + i, s.stealing() as int);
        }
        assert(d.remaining(t) =~= d.remaining(s));
    }
}

/// The worker may push while a drain is under way: the drain keeps its
/// items.
pub proof fn law_push_during_drain<T, const N: usize>(s: FifoState<T>, d: Drain<T, N>, item: T)
    requires
        s.wf(),
        s.stealing() + s.len() < s.cap(),
        d.pending_in(s),
    ensures
        d.pending_in(s.pushed(item)),
        d.remaining(s.pushed(item)) == d.remaining(s),
{
    let n = s.cap();
    let t = s.pushed(item);
    lemma_capacity(n);
    lemma_dist_bounds(d.head(), d.to_head());
    if d.head() != d.to_head() {
        let a = dist(s.stealer_head, d.head()) as int;
        let m = dist(d.head(), d.to_head()) as int;
        lemma_dist_reaches(s.stealer_head, d.head());
        lemma_w32_cong(s.stealer_head + a, d.head());
        lemma_frame(s, 0);
        assert forall|i: int| 0 <= i < m implies #[trigger] t.slot(d.head() + i) == s.slot(
            d.head() + i,
        ) by {
            lemma_same_slot(d.head() + i, s.stealer_head + (a + i), n);
            lemma_offsets(s, a + i, (s.stealing() + s.len()) as int);
        }
        assert(d.remaining(t) =~= d.remaining(s));
    }
}

/// A steal books no more than the policy asked for, no more than the cap
/// and no more than the available items, and at least one item whenever
/// all three allow it.
pub proof fn law_book_count_bounds<T>(s: FifoState<T>, asked: usize, max: u32)
    ensures
        s.book_count(asked, max) <= asked,
        s.book_count(asked, max) <= max,
        s.book_count(asked, max) <= s.len(),
        asked > 0 && max > 0 && s.len() > 0 ==> s.book_count(asked, max) > 0,
{
}

} // verus!
