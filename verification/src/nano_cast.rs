//! A fixed-capacity executor: up to `N` tasks in slots, each polled at its
//! own frequency.
use vstd::prelude::*;
use crate::poll::{Poll, Pollable};

verus! {

/// A task in a slot: the computation, the ticks between two polls and the
/// tick at which it is due.
#[derive(Debug)]
pub struct AsyncTask<F> {
    /// The computation.
    pub future: F,
    /// Ticks between two polls.
    pub interval_cycles: u64,
    /// The tick count at which the task is due next.
    pub next_run_tsc: u64,
}

/// The slot after a pass at tick `current`, given whether a polled task
/// finished and the state of its computation after the poll.
pub open spec fn pass_slot<F>(slot: Option<AsyncTask<F>>, current: u64, ready: bool, fut: F) -> Option<
    AsyncTask<F>,
> {
    match slot {
        None => None,
        Some(t) => if current < t.next_run_tsc {
            Some(t)
        } else if ready {
            None
        } else {
            Some(
                AsyncTask {
                    future: fut,
                    interval_cycles: t.interval_cycles,
                    next_run_tsc: (current + t.interval_cycles) as u64,
                },
            )
        },
    }
}

/// A due task in `slot` went one step to `fut`: ready when `ready`, pending
/// otherwise.
pub open spec fn slot_stepped<F: Pollable<Output = ()>>(
    slot: Option<AsyncTask<F>>,
    current: u64,
    ready: bool,
    fut: F,
) -> bool {
    match slot {
        Some(t) => current >= t.next_run_tsc ==> t.future.step(
            fut,
            if ready {
                Poll::Ready(())
            } else {
                Poll::Pending
            },
        ),
        None => true,
    }
}

/// The slots after a pass at tick `current`.
pub open spec fn pass_all<F>(
    slots: Seq<Option<AsyncTask<F>>>,
    current: u64,
    ready: Seq<bool>,
    futs: Seq<F>,
) -> Seq<Option<AsyncTask<F>>> {
    Seq::new(slots.len(), |i: int| pass_slot(slots[i], current, ready[i], futs[i]))
}

/// An executor with `N` task slots.
pub struct Executor<F, const N: usize> {
    tasks: Vec<Option<AsyncTask<F>>>,
}

impl<F, const N: usize> Executor<F, N> {
    /// The slots.
    pub closed spec fn slots(self) -> Seq<Option<AsyncTask<F>>> {
        self.tasks@
    }

    /// Creates an executor with `N` empty slots.
    pub fn new() -> (r: Self)
        ensures
            r.slots().len() == N,
            forall|i: int| 0 <= i < N ==> r.slots()[i] is None,
    {
        let mut tasks: Vec<Option<AsyncTask<F>>> = Vec::new();
        let mut i: usize = 0;
        while i < N
            invariant
                i <= N,
                tasks@.len() == i,
                forall|j: int| 0 <= j < i ==> tasks@[j] is None,
            decreases N - i,
        {
            tasks.push(None);
            i += 1;
        }
        Executor { tasks }
    }

    /// Puts `future` into the first empty slot, to be polled at `hz` Hz on
    /// a CPU running at `cpu_speed_hz`, due at tick `now`; when every slot is
    /// taken the task is dropped.
    pub fn add_task(&mut self, future: F, hz: u64, cpu_speed_hz: u64, now: u64)
        requires
            hz != 0,
        ensures
            final(self).slots().len() == old(self).slots().len(),
            ({
                let task = AsyncTask { future, interval_cycles: cpu_speed_hz / hz, next_run_tsc: now };
                &&& (exists|i: int| 0 <= i < old(self).slots().len() && old(self).slots()[i] is None)
                    ==> final(self).slots() == old(self).slots().update(
                    first_empty(old(self).slots()),
                    Some(task),
                )
                &&& (forall|i: int| 0 <= i < old(self).slots().len() ==> old(self).slots()[i] is Some)
                    ==> final(self).slots() == old(self).slots()
            }),
    {
        let interval = cpu_speed_hz / hz;
        let mut i: usize = 0;
        while i < self.tasks.len()
            invariant
                i <= self.tasks@.len(),
                self.tasks@ == old(self).slots(),
                interval == cpu_speed_hz / hz,
                forall|j: int| 0 <= j < i ==> self.tasks@[j] is Some,
            decreases self.tasks@.len() - i,
        {
            if self.tasks[i].is_none() {
                proof {
                    lemma_first_empty(self.tasks@, i as int);
                    assert(old(self).slots()[i as int] is None);
                }
                let ghost fut = future;
                self.tasks.set(
                    i,
                    Some(AsyncTask { future, interval_cycles: interval, next_run_tsc: now }),
                );
                assert(self.tasks@ == old(self).slots().update(
                    first_empty(old(self).slots()),
                    Some(AsyncTask { future: fut, interval_cycles: cpu_speed_hz / hz, next_run_tsc: now }),
                ));
                return;
            }
            i += 1;
        }
    }
}

/// The index of the first empty slot.
pub open spec fn first_empty<F>(slots: Seq<Option<AsyncTask<F>>>) -> int
    decreases slots.len(),
{
    if slots.len() == 0 {
        0
    } else if slots.last() is None && (forall|j: int|
        0 <= j < slots.len() - 1 ==> slots[j] is Some) {
        slots.len() - 1
    } else {
        first_empty(slots.drop_last())
    }
}

/// The first empty slot is the empty one with only taken slots before it.
proof fn lemma_first_empty<F>(slots: Seq<Option<AsyncTask<F>>>, i: int)
    requires
        0 <= i < slots.len(),
        slots[i] is None,
        forall|j: int| 0 <= j < i ==> slots[j] is Some,
    ensures
        first_empty(slots) == i,
    decreases slots.len(),
{
    if i < slots.len() - 1 {
        lemma_first_empty(slots.drop_last(), i);
        assert(!(forall|j: int| 0 <= j < slots.len() - 1 ==> slots[j] is Some) || slots.last() is Some);
    }
}

impl<F, const N: usize> Executor<F, N> {
    /// Whether a pass at tick `current` can reschedule every due task
    /// without the next due tick overflowing: what [`Executor::run_pass`]
    /// requires.
    pub fn pass_fits(&self, current: u64) -> (r: bool)
        ensures
            r == (forall|i: int|
                0 <= i < self.slots().len() ==> (#[trigger] self.slots()[i] matches Some(t)
                    ==> current < t.next_run_tsc || current + t.interval_cycles <= u64::MAX)),
    {
        let mut k: usize = 0;
        while k < self.tasks.len()
            invariant
                k <= self.tasks@.len(),
                forall|j: int|
                    0 <= j < k ==> (#[trigger] self.tasks@[j] matches Some(t) ==> current
                        < t.next_run_tsc || current + t.interval_cycles <= u64::MAX),
            decreases self.tasks@.len() - k,
        {
            if let Some(t) = &self.tasks[k] {
                if current >= t.next_run_tsc && t.interval_cycles > u64::MAX - current {
                    return false;
                }
            }
            k += 1;
        }
        true
    }
}

impl<F: Pollable<Output = ()>, const N: usize> Executor<F, N> {
    /// One pass over the slots at tick `current`: each due task is polled;
    /// a finished task frees its slot; a pending one is due again one
    /// interval later.
    pub fn run_pass(&mut self, current: u64)
        requires
            forall|i: int|
                0 <= i < old(self).slots().len() ==> (#[trigger] old(self).slots()[i] matches Some(
                    t,
                ) ==> current < t.next_run_tsc || current + t.interval_cycles <= u64::MAX),
        ensures
            exists|ready: Seq<bool>, futs: Seq<F>|
                {
                    &&& ready.len() == old(self).slots().len()
                    &&& futs.len() == old(self).slots().len()
                    &&& final(self).slots() == pass_all(old(self).slots(), current, ready, futs)
                    &&& forall|i: int|
                        0 <= i < old(self).slots().len() ==> #[trigger] slot_stepped(
                            old(self).slots()[i],
                            current,
                            ready[i],
                            futs[i],
                        )
                },
    {
        let ghost old_slots = self.tasks@;
        let ghost mut ready: Seq<bool> = Seq::empty();
        let ghost mut futs: Seq<F> = Seq::empty();
        let mut i: usize = 0;
        while i < self.tasks.len()
            invariant
                i <= self.tasks@.len(),
                self.tasks@.len() == old_slots.len(),
                old_slots == old(self).slots(),
                ready.len() == i,
                futs.len() == i,
                forall|j: int|
                    0 <= j < old_slots.len() ==> (#[trigger] old_slots[j] matches Some(t) ==> current
                        < t.next_run_tsc || current + t.interval_cycles <= u64::MAX),
                forall|j: int|
                    0 <= j < i ==> #[trigger] self.tasks@[j] == pass_slot(
                        old_slots[j],
                        current,
                        ready[j],
                        futs[j],
                    ),
                forall|j: int| i <= j < old_slots.len() ==> #[trigger] self.tasks@[j] == old_slots[j],
                forall|j: int|
                    0 <= j < i ==> #[trigger] slot_stepped(old_slots[j], current, ready[j], futs[j]),
            decreases self.tasks@.len() - i,
        {
            let slot = self.tasks[i].take();
            match slot {
                Some(mut task) => {
                    if current >= task.next_run_tsc {
                        let ghost f0 = task.future;
                        let res = task.future.poll();
                        proof {
                            assert(f0.step(task.future, res));
                        }
                        match res {
                            Poll::Ready(out) => {
                                proof {
                                    assert(out == ());
                                    ready = ready.push(true);
                                    futs = futs.push(task.future);
                                }
                            },
                            Poll::Pending => {
                                task.next_run_tsc = current + task.interval_cycles;
                                proof {
                                    ready = ready.push(false);
                                    futs = futs.push(task.future);
                                }
                                self.tasks.set(i, Some(task));
                            },
                        }
                    } else {
                        proof {
                            ready = ready.push(false);
                            futs = futs.push(task.future);
                        }
                        self.tasks.set(i, Some(task));
                    }
                },
                None => {
                    proof {
                        ready = ready.push(false);
                        futs = futs.push(arbitrary());
                    }
                },
            }
            i += 1;
        }
        proof {
            assert(self.tasks@ =~= pass_all(old_slots, current, ready, futs));
        }
    }
}

} // verus!

verus! {

/// A pass at a tick before every task is due changes no slot.
pub proof fn law_idle_pass<F>(
    slots: Seq<Option<AsyncTask<F>>>,
    current: u64,
    ready: Seq<bool>,
    futs: Seq<F>,
)
    requires
        ready.len() == slots.len(),
        futs.len() == slots.len(),
        forall|i: int|
            0 <= i < slots.len() ==> (#[trigger] slots[i] matches Some(t) ==> current < t.next_run_tsc),
    ensures
        pass_all(slots, current, ready, futs) == slots,
{
    assert(pass_all(slots, current, ready, futs) =~= slots);
}

/// A pass never fills a slot: every slot empty before it is empty after
/// it, and the number of slots stays.
pub proof fn law_pass_never_fills<F>(
    slots: Seq<Option<AsyncTask<F>>>,
    current: u64,
    ready: Seq<bool>,
    futs: Seq<F>,
)
    ensures
        pass_all(slots, current, ready, futs).len() == slots.len(),
        forall|i: int|
            0 <= i < slots.len() && slots[i] is None ==> (#[trigger] pass_all(
                slots,
                current,
                ready,
                futs,
            )[i]) is None,
{
}

/// What a pass does with each task, in terms of the tick of the pass: a task
/// not yet due is left as it was; a due task that finished frees its slot;
/// a due task still pending keeps its interval and is next due one interval
/// after the pass, at `current` plus its interval.
pub proof fn law_pass_reschedules_from_now<F>(
    slots: Seq<Option<AsyncTask<F>>>,
    current: u64,
    ready: Seq<bool>,
    futs: Seq<F>,
    i: int,
)
    requires
        0 <= i < slots.len(),
        ready.len() == slots.len(),
        futs.len() == slots.len(),
        slots[i] matches Some(t) ==> current < t.next_run_tsc || current + t.interval_cycles
            <= u64::MAX,
    ensures
        slots[i] matches Some(t) ==> (current < t.next_run_tsc ==> pass_all(
            slots,
            current,
            ready,
            futs,
        )[i] == slots[i]),
        slots[i] matches Some(t) ==> (current >= t.next_run_tsc && ready[i] ==> pass_all(
            slots,
            current,
            ready,
            futs,
        )[i] is None),
        slots[i] matches Some(t) ==> (current >= t.next_run_tsc && !ready[i] ==> (pass_all(
            slots,
            current,
            ready,
            futs,
        )[i] matches Some(n) && n.next_run_tsc == current + t.interval_cycles
            && n.interval_cycles == t.interval_cycles && n.future == futs[i])),
{
}

} // verus!
