//! The work-stealing executor: one run queue per core, tasks taken from the
//! own queue first (newest first) and otherwise stolen, half a queue at a
//! time, from the other cores.
use vstd::prelude::*;
use crate::no_alloc::waker::{WakePolicy, POLICY_MASK, WAKE_BIT};
use crate::poll::{Poll, Pollable};
use crate::st3::lifo::{LifoState, Queue, Stealer, Worker};
use crate::st3::{dist, is_capacity};
use crate::task::{TaskHeader, TaskPool, TaskSlot, SLOT_EMPTY, SLOT_OCCUPIED};

verus! {

/// The number of cores.
pub const MAX_CORES: usize = 4;

/// The capacity of each core's run queue.
pub const QUEUE_SIZE: usize = 256;

/// Every run queue is well-formed and no steal is in progress.
pub open spec fn queues_ok<const N: usize>(queues: Seq<Worker<N>>) -> bool {
    forall|i: int| 0 <= i < queues.len() ==> #[trigger] queues[i].wf() && queues[i]@.idle()
}

/// The states of the run queues.
pub open spec fn views<const N: usize>(queues: Seq<Worker<N>>) -> Seq<LifoState> {
    queues.map_values(|w: Worker<N>| w@)
}

/// The run queues of all cores, empty.
pub fn new_global_queues() -> (r: Vec<Worker<QUEUE_SIZE>>)
    ensures
        r@.len() == MAX_CORES,
        queues_ok(r@),
        forall|i: int| 0 <= i < MAX_CORES ==> (#[trigger] r@[i])@.items().len() == 0,
{
    proof {
        lemma_queue_size_is_capacity();
    }
    let mut queues: Vec<Worker<QUEUE_SIZE>> = Vec::new();
    let mut i: usize = 0;
    while i < MAX_CORES
        invariant
            i <= MAX_CORES,
            is_capacity(QUEUE_SIZE as nat),
            queues@.len() == i,
            queues_ok(queues@),
            forall|j: int| 0 <= j < i ==> (#[trigger] queues@[j])@.items().len() == 0,
        decreases MAX_CORES - i,
    {
        queues.push(Worker::new(Queue::new()));
        i += 1;
    }
    queues
}

/// The run-queue capacity is a power of two.
proof fn lemma_queue_size_is_capacity()
    ensures
        is_capacity(QUEUE_SIZE as nat),
{
    vstd::arithmetic::power2::lemma2_to64();
    assert(QUEUE_SIZE == vstd::arithmetic::power2::pow2(8));
}

/// The executor of one core: its own queue and the queues it steals from,
/// as indices into the run queues of all cores.
#[derive(Debug)]
pub struct Executor<const N: usize> {
    /// The core's own queue.
    pub core_id: usize,
    /// The queues of the other cores, in the order they are tried.
    pub stealers: Vec<usize>,
}

impl<const N: usize> Executor<N> {
    /// An executor for core `core_id` that steals from `stealers`.
    pub fn new(core_id: usize, stealers: Vec<usize>) -> (r: Self)
        ensures
            r.core_id == core_id,
            r.stealers@ == stealers@,
    {
        Executor { core_id, stealers }
    }

    /// The executor fits the run queues: its own queue exists, and it steals
    /// only from existing queues other than its own.
    pub open spec fn fits(&self, cores: nat) -> bool {
        &&& self.core_id < cores
        &&& forall|k: int|
            0 <= k < self.stealers@.len() ==> #[trigger] self.stealers@[k] < cores
                && self.stealers@[k] != self.core_id
    }

    /// Picks the next task: the newest of the own queue; if that is empty,
    /// the first other queue with items gives up half of them (rounded up):
    /// the newest of those is picked and the others move to the own queue.
    #[verifier::spinoff_prover]
    #[verifier::rlimit(60)]
    pub fn next_task(&self, queues: &mut Vec<Worker<N>>) -> (r: Option<usize>)
        requires
            self.fits(old(queues)@.len()),
            queues_ok(old(queues)@),
        ensures
            final(queues)@.len() == old(queues)@.len(),
            queues_ok(final(queues)@),
            old(queues)@[self.core_id as int]@.len() > 0 ==> r == Some(
                old(queues)@[self.core_id as int]@.items().last(),
            ),
            old(queues)@[self.core_id as int]@.len() == 0 ==> (r is None <==> forall|k: int|
                0 <= k < self.stealers@.len() ==> (#[trigger] old(queues)@[self.stealers@[k] as int])@.len()
                    == 0),
            r is None ==> views(final(queues)@) == views(old(queues)@),
            old(queues)@[self.core_id as int]@.len() > 0 ==> popped_own(
                old(queues)@,
                final(queues)@,
                self.core_id as int,
            ),
            old(queues)@[self.core_id as int]@.len() == 0 && r is Some ==> stolen_from_first(
                old(queues)@,
                final(queues)@,
                self.core_id as int,
                self.stealers@,
                r->Some_0,
            ),
    {
        let c = self.core_id;
        let mut own = queues.remove(c);
        proof {
            assert(old(queues)@[c as int].wf());
            assert(own.wf() && own@.idle());
        }
        if let Some(ptr) = own.pop() {
            queues.insert(c, own);
            proof {
                assert forall|i: int| 0 <= i < queues@.len() implies #[trigger] queues@[i].wf()
                    && queues@[i]@.idle() by {
                    if i != c {
                        assert(queues@[i] == old(queues)@[i]);
                    }
                }
                assert forall|i: int| 0 <= i < old(queues)@.len() && i != c implies #[trigger] queues@[i]@
                    == old(queues)@[i]@ by {
                    assert(queues@[i] == old(queues)@[i]);
                }
            }
            return Some(ptr);
        }
        proof {
            assert(queues@ =~= old(queues)@.remove(c as int));
            assert(views(queues@) =~= views(old(queues)@.remove(c as int)));
        }
        let stealer: Stealer<N> = own.stealer();
        let mut k: usize = 0;
        while k < self.stealers.len()
            invariant
                self.fits(old(queues)@.len()),
                queues_ok(old(queues)@),
                own@ == old(queues)@[c as int]@,
                own.wf(),
                own@.idle(),
                own@.len() == 0,
                c == self.core_id,
                queues@.len() == old(queues)@.len() - 1,
                views(queues@) =~= views(old(queues)@.remove(c as int)),
                k <= self.stealers@.len(),
                forall|m: int|
                    0 <= m < k ==> (#[trigger] old(queues)@[self.stealers@[m] as int])@.len() == 0,
            decreases self.stealers@.len() - k,
        {
            let s = self.stealers[k];
            let j = if s > c { s - 1 } else { s };
            proof {
                assert(views(queues@)[j as int] == views(old(queues)@.remove(c as int))[j as int]);
                assert(queues@[j as int]@ == old(queues)@[s as int]@);
                assert(old(queues)@[s as int].wf());
                assert(queues@[j as int].wf() && queues@[j as int]@.idle());
                lemma_room(own@);
            }
            let half = |n: usize| -> (h: usize)
                ensures
                    h == n / 2 + n % 2,
                { n / 2 + n % 2 };
            let ghost src0 = queues@[j as int];
            let ghost own0 = own@;
            let mut src = queues.remove(j);
            let res = stealer.steal_and_pop(&mut src, &mut own, half);
            proof {
                if src0@.len() > 0 {
                    let asked = choose|asked: usize|
                        {
                            &&& #[trigger] half.ensures((src0@.len() as usize,), asked)
                            &&& crate::st3::lifo::steal_and_pop_outcome(
                                src0@,
                                own0,
                                src@,
                                own@,
                                src0@.book_count(
                                    asked,
                                    (crate::st3::lifo::free_room(own0) + 1) as u32,
                                ),
                                res,
                            )
                        };
                    lemma_steal_and_pop_half(src0@, own0, src@, own@, res, asked);
                } else {
                    lemma_steal_and_pop_half(src0@, own0, src@, own@, res, 0);
                }
            }
            let ghost src1 = src;
            let ghost mid = queues@;
            queues.insert(j, src);
            match res {
                Ok((ptr, _)) => {
                    let ghost own1 = own;
                    let ghost q2 = queues@;
                    queues.insert(c, own);
                    proof {
                        assert(q2 == mid.insert(j as int, src1));
                        assert(queues@ == q2.insert(c as int, own1));
                        assert forall|i: int| 0 <= i < queues@.len() implies #[trigger] queues@[i].wf()
                            && queues@[i]@.idle() by {
                            if i == c {
                                assert(queues@[i] == own1);
                            } else if i == s {
                                assert(queues@[i] == src1);
                            } else {
                                let i2 = if i > c { i - 1 } else { i };
                                assert(queues@[i] == q2[i2]);
                                assert(views(q2)[i2] == views(old(queues)@.remove(c as int))[i2]);
                                assert(queues@[i]@ == old(queues)@[i]@);
                                assert(old(queues)@[i].wf());
                            }
                        }
                        assert forall|i: int|
                            0 <= i < old(queues)@.len() && i != c && i != s implies #[trigger] queues@[i]@
                            == old(queues)@[i]@ by {
                            let i2 = if i > c { i - 1 } else { i };
                            assert(queues@[i] == q2[i2]);
                            assert(views(q2)[i2] == views(old(queues)@.remove(c as int))[i2]);
                        }
                        assert(queues@[c as int] == own1);
                        assert(queues@[s as int] == src1);
                        assert(src0@ == old(queues)@[s as int]@);
                        assert(stolen_from(
                            old(queues)@,
                            queues@,
                            self.core_id as int,
                            self.stealers@[k as int] as int,
                            ptr,
                        ));
                        assert(forall|m: int|
                            0 <= m < k ==> (#[trigger] old(queues)@[self.stealers@[m] as int])@.len() == 0);
                        assert(stolen_from_first(old(queues)@, queues@, c as int, self.stealers@, ptr));
                    }
                    return Some(ptr);
                },
                Err(_) => {
                    proof {
                        assert(src0@.len() == 0);
                        assert(views(queues@) =~= views(old(queues)@.remove(c as int))) by {
                            assert forall|i: int| 0 <= i < queues@.len() implies views(queues@)[i]
                                == views(old(queues)@.remove(c as int))[i] by {
                                if i == j {
                                    assert(queues@[i] == src1);
                                } else {
                                    assert(queues@[i] == mid.insert(j as int, src1)[i]);
                                }
                            }
                        }
                    }
                },
            }
            k += 1;
        }
        let ghost q3 = queues@;
        let ghost own2 = own;
        queues.insert(c, own);
        proof {
            assert(queues@ == q3.insert(c as int, own2));
            assert forall|i: int| 0 <= i < queues@.len() implies views(queues@)[i] == views(
                old(queues)@,
            )[i] by {
                if i < c {
                    assert(views(q3)[i] == views(old(queues)@.remove(c as int))[i]);
                } else if i > c {
                    assert(views(q3)[i - 1] == views(old(queues)@.remove(c as int))[i - 1]);
                }
            }
            assert(views(queues@) =~= views(old(queues)@));
            assert forall|i: int| 0 <= i < queues@.len() implies #[trigger] queues@[i].wf()
                && queues@[i]@.idle() by {
                assert(views(queues@)[i] == views(old(queues)@)[i]);
                assert(old(queues)@[i].wf());
            }
        }
        None
    }
}

/// The executor of core `core_id` among `MAX_CORES` cores: it steals from
/// every other core, in increasing order.
pub fn init_executor(core_id: usize) -> (r: Executor<QUEUE_SIZE>)
    requires
        core_id < MAX_CORES,
    ensures
        r.core_id == core_id,
        r.fits(MAX_CORES as nat),
        r.stealers@ == Seq::new(MAX_CORES as nat, |i: int| i).filter(|i: int| i != core_id).map_values(
            |i: int| i as usize,
        ),
{
    let mut stealers: Vec<usize> = Vec::new();
    let mut target: usize = 0;
    let ghost all = Seq::new(MAX_CORES as nat, |i: int| i);
    while target < MAX_CORES
        invariant
            target <= MAX_CORES,
            core_id < MAX_CORES,
            all == Seq::new(MAX_CORES as nat, |i: int| i),
            stealers@ == all.take(target as int).filter(|i: int| i != core_id).map_values(
                |i: int| i as usize,
            ),
            forall|k: int|
                0 <= k < stealers@.len() ==> #[trigger] stealers@[k] < target && stealers@[k]
                    != core_id,
        decreases MAX_CORES - target,
    {
        proof {
            assert(all.take(target + 1) =~= all.take(target as int).push(target as int));
            all.take(target as int).lemma_filter_push(target as int, |i: int| i != core_id);
        }
        if target != core_id {
            stealers.push(target);
        }
        proof {
            assert(stealers@ =~= all.take(target + 1).filter(|i: int| i != core_id).map_values(
                |i: int| i as usize,
            ));
        }
        target += 1;
    }
    proof {
        assert(all.take(MAX_CORES as int) =~= all);
    }
    Executor::new(core_id, stealers)
}

/// Schedules task `ptr` on the first run queue with room; when every queue
/// is full the task is not scheduled.
pub fn schedule_task<const N: usize>(queues: &mut Vec<Worker<N>>, ptr: usize)
    requires
        queues_ok(old(queues)@),
    ensures
        queues_ok(final(queues)@),
        final(queues)@.len() == old(queues)@.len(),
        forall|i: int|
            0 <= i < old(queues)@.len() ==> final(queues)@[i]@ == (if first_with_room(
                views(old(queues)@),
                i,
            ) {
                old(queues)@[i]@.pushed(ptr)
            } else {
                old(queues)@[i]@
            }),
{
    let ghost olds = views(old(queues)@);
    let mut i: usize = 0;
    while i < queues.len()
        invariant
            queues_ok(queues@),
            olds == views(old(queues)@),
            views(queues@) == olds,
            queues@.len() == olds.len(),
            i <= queues@.len(),
            forall|j: int| 0 <= j < i ==> (#[trigger] olds[j]).len() >= olds[j].cap(),
        decreases queues@.len() - i,
    {
        let ghost q0 = queues@;
        proof {
            assert(q0[i as int].wf());
            assert(olds[i as int] == q0[i as int]@);
        }
        let mut worker = queues.remove(i);
        let pushed = worker.push(ptr);
        let ghost w1 = worker;
        queues.insert(i, worker);
        proof {
            assert(queues@ == q0.remove(i as int).insert(i as int, w1));
            assert forall|j: int| 0 <= j < queues@.len() implies #[trigger] queues@[j].wf()
                && queues@[j]@.idle() by {
                if j != i {
                    assert(queues@[j] == q0[j]);
                }
                assert(q0[j].wf());
            }
        }
        if pushed.is_ok() {
            proof {
                assert forall|j: int| 0 <= j < old(queues)@.len() implies queues@[j]@ == (
                if first_with_room(views(old(queues)@), j) {
                    old(queues)@[j]@.pushed(ptr)
                } else {
                    old(queues)@[j]@
                }) by {
                    assert(olds[j] == old(queues)@[j]@);
                    assert(views(q0)[j] == olds[j]);
                    if j != i {
                        assert(queues@[j] == q0[j]);
                        if j > i {
                            assert(olds[i as int].len() < olds[i as int].cap());
                        }
                    }
                }
            }
            return;
        }
        proof {
            assert(views(queues@) =~= olds) by {
                assert forall|j: int| 0 <= j < queues@.len() implies views(queues@)[j] == olds[j] by {
                    if j != i {
                        assert(queues@[j] == q0[j]);
                    }
                    assert(views(q0)[j] == olds[j]);
                }
            }
        }
        i += 1;
    }
    proof {
        assert forall|j: int| 0 <= j < old(queues)@.len() implies queues@[j]@ == old(queues)@[j]@
            && !first_with_room(views(old(queues)@), j) by {
            assert(views(queues@)[j] == olds[j]);
            assert(olds[j] == old(queues)@[j]@);
        }
    }
}

/// Whether a task with control byte `control` is polled: its policy polls
/// on every pass, or its wake flag is set.
pub open spec fn polls(control: u8) -> bool {
    WakePolicy::from_bits(control & POLICY_MASK) != Some(WakePolicy::InterruptOnly) || (control
        & WAKE_BIT != 0)
}

/// Slot `n` with result `r` is what polling slot `o` under its wake policy
/// makes of it: the wake flag is cleared; a task that is not polled stays as
/// it was and is pending; a polled task takes one step of its computation,
/// and leaves the slot empty when that step finishes it.
pub open spec fn poll_wrapped<F: Pollable<Output = ()>>(o: TaskSlot<F>, n: TaskSlot<F>, r: Poll<()>) -> bool {
    &&& n.header.control == o.header.control & !WAKE_BIT
    &&& !polls(o.header.control) ==> r == Poll::<()>::Pending && n.future == o.future
        && n.header.occupied == o.header.occupied
    &&& polls(o.header.control) ==> o.future is Some && exists|f: F|
        #[trigger] o.future->Some_0.step(f, r) && (r is Ready ==> n.future is None
            && n.header.occupied == SLOT_EMPTY) && (r is Pending ==> n.future == Some(f)
            && n.header.occupied == o.header.occupied)
}

impl<F: Pollable<Output = ()>> TaskSlot<F> {
    /// Polls the task of this slot under its wake policy: the wake flag is
    /// cleared; a task that is polled only when woken and was not woken
    /// stays pending; a finished task leaves the slot empty.
    pub fn poll_wrapper(&mut self) -> (r: Poll<()>)
        requires
            old(self).future is Some,
            old(self).header.control & POLICY_MASK != 3,
        ensures
            poll_wrapped(*old(self), *final(self), r),
    {
        let prev = self.header.control;
        self.header.control = prev & !WAKE_BIT;
        let (policy, is_waked) = WakePolicy::unpack(prev);
        if !policy.should_poll(is_waked) {
            return Poll::Pending;
        }
        match self.future.take() {
            Some(mut f) => {
                let ghost f0 = f;
                let res = f.poll();
                proof {
                    assert(f0.step(f, res));
                }
                if res.is_ready() {
                    self.header.occupied = SLOT_EMPTY;
                } else {
                    self.future = Some(f);
                }
                res
            },
            None => Poll::Pending,
        }
    }
}

/// Running slot `x` of a pool: when it holds a task with a valid control
/// byte, the slot is polled under its wake policy (see [`poll_wrapped`]) and
/// every other slot is unchanged; otherwise the pool is unchanged.
pub open spec fn slot_run<F: Pollable<Output = ()>>(old: Seq<TaskSlot<F>>, new: Seq<TaskSlot<F>>, x: usize) -> bool {
    if x < old.len() && old[x as int].future is Some && old[x as int].header.control & POLICY_MASK != 3 {
        &&& new.len() == old.len()
        &&& forall|j: int| 0 <= j < old.len() && j != x ==> #[trigger] new[j] == old[j]
        &&& exists|r: Poll<()>| #[trigger] poll_wrapped(old[x as int], new[x as int], r)
    } else {
        new == old
    }
}

/// Whether slot `i` is the first empty one.
pub open spec fn first_empty_slot<F>(slots: Seq<TaskSlot<F>>, i: int) -> bool {
    &&& 0 <= i < slots.len()
    &&& slots[i].header.occupied == SLOT_EMPTY
    &&& forall|j: int| 0 <= j < i ==> (#[trigger] slots[j]).header.occupied != SLOT_EMPTY
}

impl<const N: usize> Worker<N> {
    /// Puts `fut` into the first empty slot of `pool` and pushes the slot
    /// onto this queue; gives `fut` back when no slot is empty, or when the
    /// queue is full (the slot is then emptied again).
    pub fn spawn_task<F, const POOL_N: usize>(&mut self, pool: &mut TaskPool<F, POOL_N>, fut: F) -> (r:
        Result<(), F>)
        requires
            old(self).wf(),
        ensures
            final(self).wf(),
            final(pool).0@.len() == old(pool).0@.len(),
            (forall|i: int| 0 <= i < old(pool).0@.len() ==> (#[trigger] old(pool).0@[i]).header.occupied
                != SLOT_EMPTY) ==> r == Err::<(), F>(fut) && final(pool).0@ == old(pool).0@
                && final(self)@ == old(self)@,
            forall|i: int|
                first_empty_slot(old(pool).0@, i) ==> {
                    &&& old(self)@.len() < N ==> r is Ok && final(self)@ == old(self)@.pushed(
                        i as usize,
                    ) && final(pool).0@ == old(pool).0@.update(
                        i,
                        TaskSlot {
                            header: TaskHeader {
                                control: old(pool).0@[i].header.control,
                                occupied: SLOT_OCCUPIED,
                            },
                            future: Some(fut),
                        },
                    )
                    &&& old(self)@.len() >= N ==> r == Err::<(), F>(fut) && final(self)@ == old(
                        self,
                    )@ && final(pool).0@ == old(pool).0@.update(
                        i,
                        TaskSlot { header: old(pool).0@[i].header, future: None },
                    )
                },
    {
        let mut i: usize = 0;
        while i < pool.0.len()
            invariant
                pool.0@ == old(pool).0@,
                self.wf(),
                self@ == old(self)@,
                i <= pool.0@.len(),
                forall|j: int| 0 <= j < i ==> (#[trigger] pool.0@[j]).header.occupied != SLOT_EMPTY,
            decreases pool.0@.len() - i,
        {
            if pool.0[i].header.occupied == SLOT_EMPTY {
                let control = pool.0[i].header.control;
                pool.0.set(
                    i,
                    TaskSlot {
                        header: TaskHeader { control, occupied: SLOT_OCCUPIED },
                        future: Some(fut),
                    },
                );
                match self.push(i) {
                    Ok(()) => {
                        proof {
                            assert forall|k: int| first_empty_slot(old(pool).0@, k) implies k == i by {
                                if k < i {
                                } else if k > i {
                                    assert(old(pool).0@[i as int].header.occupied == SLOT_EMPTY);
                                }
                            }
                        }
                        return Ok(());
                    },
                    Err(_) => {
                        let back = pool.0[i].future.take();
                        pool.0[i].header.occupied = SLOT_EMPTY;
                        proof {
                            assert forall|k: int| first_empty_slot(old(pool).0@, k) implies k == i by {
                                if k > i {
                                    assert(old(pool).0@[i as int].header.occupied == SLOT_EMPTY);
                                }
                            }
                            assert(pool.0@ =~= old(pool).0@.update(
                                i as int,
                                TaskSlot { header: old(pool).0@[i as int].header, future: None },
                            ));
                        }
                        match back {
                            Some(f) => {
                                return Err(f);
                            },
                            None => {
                                return Ok(());
                            },
                        }
                    },
                }
            }
            i += 1;
        }
        Err(fut)
    }
}

impl<const N: usize> Executor<N> {
    /// One executor step: picks the next task (see [`Executor::next_task`])
    /// and polls it, if it is a slot of `pool` that holds a task with a
    /// valid control byte. Returns whether a task was picked.
    pub fn run_step<F: Pollable<Output = ()>, const POOL_N: usize>(
        &self,
        queues: &mut Vec<Worker<N>>,
        pool: &mut TaskPool<F, POOL_N>,
    ) -> (r: bool)
        requires
            self.fits(old(queues)@.len()),
            queues_ok(old(queues)@),
        ensures
            queues_ok(final(queues)@),
            final(queues)@.len() == old(queues)@.len(),
            final(pool).0@.len() == old(pool).0@.len(),
            r == (old(queues)@[self.core_id as int]@.len() > 0 || exists|k: int|
                0 <= k < self.stealers@.len() && (#[trigger] old(
                    queues,
                )@[self.stealers@[k] as int])@.len() > 0),
            !r ==> views(final(queues)@) == views(old(queues)@) && final(pool).0@ == old(pool).0@,
            old(queues)@[self.core_id as int]@.len() > 0 ==> popped_own(
                old(queues)@,
                final(queues)@,
                self.core_id as int,
            ),
            old(queues)@[self.core_id as int]@.len() > 0 ==> slot_run(
                old(pool).0@,
                final(pool).0@,
                old(queues)@[self.core_id as int]@.items().last(),
            ),
            old(queues)@[self.core_id as int]@.len() == 0 && r ==> exists|x: usize|
                #[trigger] stolen_from_first(
                    old(queues)@,
                    final(queues)@,
                    self.core_id as int,
                    self.stealers@,
                    x,
                ) && slot_run(old(pool).0@, final(pool).0@, x),
    {
        let ghost p0 = pool.0@;
        match self.next_task(queues) {
            Some(ptr) => {
                if ptr < pool.0.len() {
                    if pool.0[ptr].future.is_some() && pool.0[ptr].header.control & POLICY_MASK != 3 {
                        let res = pool.0[ptr].poll_wrapper();
                        proof {
                            assert(poll_wrapped(p0[ptr as int], pool.0@[ptr as int], res));
                        }
                    }
                }
                true
            },
            None => false,
        }
    }
}

/// Queue `i` is the first one with room for one more task.
pub open spec fn first_with_room(queues: Seq<LifoState>, i: int) -> bool {
    &&& 0 <= i < queues.len()
    &&& queues[i].len() < queues[i].cap()
    &&& forall|m: int| 0 <= m < i ==> #[trigger] queues[m].len() >= queues[m].cap()
}

/// An empty idle queue has room for anything.
proof fn lemma_room(s: LifoState)
    requires
        s.wf(),
        s.idle(),
        s.len() == 0,
    ensures
        dist(s.stealer_head, s.tail()) <= s.cap(),
        s.stealing() + s.len() <= s.cap(),
{
    crate::st3::lemma_dist_bounds(s.stealer_head, s.head);
}

/// A steal-and-pop that takes half (rounded up) from an idle queue fails
/// only on an empty queue; when it succeeds, the item is one of the source's
/// and both queues are left well-formed and idle.
proof fn lemma_steal_and_pop_half(
    src0: LifoState,
    dest0: LifoState,
    src1: LifoState,
    dest1: LifoState,
    res: Result<(usize, usize), crate::st3::StealError>,
    asked: usize,
)
    requires
        src0.wf(),
        src0.idle(),
        dest0.wf(),
        dest0.idle(),
        dest0.len() == 0,
        src0.cap() == dest0.cap(),
        src0.len() > 0 ==> asked == src0.len() / 2 + src0.len() % 2,
        src0.len() > 0 ==> crate::st3::lifo::steal_and_pop_outcome(
            src0,
            dest0,
            src1,
            dest1,
            src0.book_count(asked, (crate::st3::lifo::free_room(dest0) + 1) as u32),
            res,
        ),
        src0.len() == 0 ==> res == Err::<(usize, usize), crate::st3::StealError>(
            crate::st3::StealError::Empty,
        ) && src1 == src0 && dest1 == dest0,
    ensures
        res is Err ==> src0.len() == 0 && src1 == src0 && dest1 == dest0,
        res matches Ok((x, _)) ==> src0.items().contains(x) && src1.wf() && src1.idle()
            && dest1.idle() && src0.items() == dest1.items().push(x) + src1.items()
            && dest1.items().len() + 1 == steal_half(src0.len()),
{
    crate::st3::lemma_dist_bounds(dest0.stealer_head, dest0.head);
    crate::st3::lemma_capacity(dest0.cap());
    assert(crate::st3::lifo::free_room(dest0) <= dest0.cap());
    if src0.len() > 0 {
        let k = src0.book_count(asked, (crate::st3::lifo::free_room(dest0) + 1) as u32);
        crate::st3::lemma_dist_bounds(dest0.head, dest0.tail());
        crate::st3::lemma_dist_bounds(dest0.stealer_head, dest0.tail());
        assert(crate::st3::lifo::free_room(dest0) == dest0.cap());
        assert(k == asked);
        assert(k > 0);
        assert(src0.items()[k - 1] == res->Ok_0.0);
        assert(src0.items().contains(res->Ok_0.0));
        crate::st3::lifo::lemma_booked(src0, k);
        crate::st3::lifo::lemma_released(src0.booked(k));
        lemma_room(dest0);
        assert(dest0.items() =~= Seq::<usize>::empty());
        assert(dest1.items() =~= src0.items().take(k - 1));
        assert(src0.items() =~= dest1.items().push(res->Ok_0.0) + src1.items());
    }
}

/// Task `x` was stolen for core `c` from the first queue in `stealers`
/// that had any; the queues tried before it were empty.
pub open spec fn stolen_from_first<const N: usize>(
    old: Seq<Worker<N>>,
    new: Seq<Worker<N>>,
    c: int,
    stealers: Seq<usize>,
    x: usize,
) -> bool {
    exists|k: int|
        0 <= k < stealers.len() && #[trigger] stolen_from(old, new, c, stealers[k] as int, x)
            && forall|m: int| 0 <= m < k ==> (#[trigger] old[stealers[m] as int])@.len() == 0
}

/// The own queue of core `c` gave up its newest task and every other queue
/// is unchanged.
pub open spec fn popped_own<const N: usize>(old: Seq<Worker<N>>, new: Seq<Worker<N>>, c: int) -> bool {
    &&& new[c]@.items() == old[c]@.items().drop_last()
    &&& forall|i: int| 0 <= i < old.len() && i != c ==> #[trigger] new[i]@ == old[i]@
}

/// Task `x` was stolen from queue `s` for core `c`: half the items of `s`,
/// rounded up, were taken, oldest first: the first of them now fill the own
/// queue, `x` is the last, and the items left in `s` follow; every other
/// queue is unchanged. No task is lost or duplicated.
pub open spec fn stolen_from<const N: usize>(
    old: Seq<Worker<N>>,
    new: Seq<Worker<N>>,
    c: int,
    s: int,
    x: usize,
) -> bool {
    &&& old[s]@.items() == new[c]@.items().push(x) + new[s]@.items()
    &&& new[c]@.items().len() + 1 == steal_half(old[s]@.len())
    &&& forall|i: int| 0 <= i < old.len() && i != c && i != s ==> #[trigger] new[i]@ == old[i]@
}

/// How many tasks a steal takes from a queue of `n`: half, rounded up.
pub open spec fn steal_half(n: nat) -> nat {
    n / 2 + n % 2
}

} // verus!
