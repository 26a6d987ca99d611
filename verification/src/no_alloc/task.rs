//! Statically allocated task slots and the life cycle of a task.
use vstd::prelude::*;
use crate::st3::lifo::Worker;

verus! {

/// The life-cycle state of a task slot.
#[derive(Debug, Clone, Copy, PartialEq, Eq, Structural)]
pub enum State {
    /// The slot is empty.
    Free,
    /// The slot holds a task.
    Initialized,
    /// The task is in a run queue.
    Ready,
    /// The task is being polled.
    Running,
    /// The task gave control back.
    Yielded,
    /// The task waits to be woken.
    Waiting,
    /// Any other value.
    Unreachable,
}

impl State {
    /// The byte that encodes the state.
    pub open spec fn spec_to_u8(self) -> u8 {
        match self {
            State::Free => 0,
            State::Initialized => 1,
            State::Ready => 2,
            State::Running => 3,
            State::Yielded => 4,
            State::Waiting => 5,
            State::Unreachable => 6,
        }
    }

    /// The state that a byte encodes; bytes beyond the encodings give
    /// `Unreachable`.
    pub open spec fn spec_from_u8(v: u8) -> State {
        if v == 0 {
            State::Free
        } else if v == 1 {
            State::Initialized
        } else if v == 2 {
            State::Ready
        } else if v == 3 {
            State::Running
        } else if v == 4 {
            State::Yielded
        } else if v == 5 {
            State::Waiting
        } else {
            State::Unreachable
        }
    }

    /// The byte that encodes the state.
    pub fn to_u8(self) -> (r: u8)
        ensures
            r == self.spec_to_u8(),
    {
        match self {
            State::Free => 0,
            State::Initialized => 1,
            State::Ready => 2,
            State::Running => 3,
            State::Yielded => 4,
            State::Waiting => 5,
            State::Unreachable => 6,
        }
    }

    /// The state that a byte encodes; bytes beyond the encodings give
    /// `Unreachable`.
    pub fn from_u8(v: u8) -> (r: State)
        ensures
            r == State::spec_from_u8(v),
    {
        if v == 0 {
            State::Free
        } else if v == 1 {
            State::Initialized
        } else if v == 2 {
            State::Ready
        } else if v == 3 {
            State::Running
        } else if v == 4 {
            State::Yielded
        } else if v == 5 {
            State::Waiting
        } else {
            State::Unreachable
        }
    }
}

/// Decoding the encoding of a state gives the state back; encoding the
/// decoding of a byte gives the byte back, up to `Unreachable`.
pub proof fn law_state_roundtrip(s: State, v: u8)
    ensures
        State::spec_from_u8(s.spec_to_u8()) == s,
        v <= 6 ==> State::spec_from_u8(v).spec_to_u8() == v,
        v > 6 ==> State::spec_from_u8(v) == State::Unreachable,
{
}

/// The header of a task slot: the control byte and the state byte.
#[derive(Debug, Clone, Copy, PartialEq, Eq)]
pub struct TaskHeader {
    /// Wake policy and wake flag.
    pub control: u8,
    /// The life-cycle state, encoded.
    pub state: u8,
}

/// Storage for a task computation that is made on first use: empty until
/// the first initialization; each later initialization replaces (and
/// drops) the computation held.
#[derive(Debug)]
pub struct StaticFuture<F>(pub Option<F>);

impl<F> StaticFuture<F> {
    /// Empty storage.
    pub fn new() -> (r: Self)
        ensures
            r.0 is None,
    {
        StaticFuture(None)
    }

    /// Stores the computation that `future` makes, replacing the one held.
    pub fn init<G: FnOnce() -> F>(&mut self, future: G)
        requires
            future.requires(()),
        ensures
            final(self).0 matches Some(f) && future.ensures((), f),
    {
        self.0 = Some(future());
    }

    /// Stores the computation that `future` makes, replacing the one held,
    /// and gives access to it.
    pub fn spawn<G: FnOnce() -> F>(&mut self, future: G) -> (r: &mut F)
        requires
            future.requires(()),
        ensures
            future.ensures((), *r),
            final(self).0 == Some(*final(r)),
    {
        self.0 = Some(future());
        self.0.as_mut().unwrap()
    }

    /// The computation held; there must be one.
    pub fn get(&self) -> (r: &F)
        requires
            self.0 is Some,
        ensures
            *r == self.0->Some_0,
    {
        self.0.as_ref().unwrap()
    }
}

/// A task slot: its header and its task, once initialized.
#[derive(Debug)]
pub struct TaskSlot<F> {
    /// The header.
    pub header: TaskHeader,
    /// The task.
    pub future: StaticFuture<F>,
}

/// A pool of task slots.
#[derive(Debug)]
pub struct TaskPool<F, const N: usize>(pub Vec<TaskSlot<F>>);

/// Whether slot `i` of `slots` is the first free one.
pub open spec fn first_free<F>(slots: Seq<TaskSlot<F>>, i: int) -> bool {
    &&& 0 <= i < slots.len()
    &&& slots[i].header.state == State::Free.spec_to_u8()
    &&& forall|j: int| 0 <= j < i ==> slots[j].header.state != State::Free.spec_to_u8()
}

impl<F, const N: usize> TaskPool<F, N> {
    /// A pool of `N` free, empty slots.
    pub fn new() -> (r: Self)
        ensures
            r.0@.len() == N,
            forall|i: int|
                0 <= i < N ==> #[trigger] r.0@[i].header == (TaskHeader {
                    control: 0,
                    state: State::Free.spec_to_u8(),
                }) && r.0@[i].future.0 is None,
    {
        let mut slots: Vec<TaskSlot<F>> = Vec::new();
        let mut i: usize = 0;
        while i < N
            invariant
                i <= N,
                slots@.len() == i,
                forall|j: int|
                    0 <= j < i ==> #[trigger] slots@[j].header == (TaskHeader {
                        control: 0,
                        state: State::Free.spec_to_u8(),
                    }) && slots@[j].future.0 is None,
            decreases N - i,
        {
            slots.push(
                TaskSlot {
                    header: TaskHeader { control: 0, state: State::Free.to_u8() },
                    future: StaticFuture::new(),
                },
            );
            i += 1;
        }
        TaskPool(slots)
    }

    /// Initializes the first free slot with the task that `future` makes,
    /// marks it initialized and returns its index.
    pub fn init<G: FnOnce() -> F>(&mut self, future: G) -> (r: usize)
        requires
            exists|i: int|
                0 <= i < old(self).0@.len() && #[trigger] old(self).0@[i].header.state
                    == State::Free.spec_to_u8(),
            future.requires(()),
        ensures
            first_free(old(self).0@, r as int),
            final(self).0@.len() == old(self).0@.len(),
            final(self).0@[r as int].header == (TaskHeader {
                control: old(self).0@[r as int].header.control,
                state: State::Initialized.spec_to_u8(),
            }),
            final(self).0@[r as int].future.0 matches Some(f) && future.ensures((), f),
            forall|j: int|
                0 <= j < old(self).0@.len() && j != r ==> #[trigger] final(self).0@[j] == old(
                    self,
                ).0@[j],
    {
        let free = State::Free.to_u8();
        let mut i: usize = 0;
        while i < self.0.len()
            invariant
                i <= self.0@.len(),
                self.0@ == old(self).0@,
                free == State::Free.spec_to_u8(),
                future.requires(()),
                forall|j: int| 0 <= j < i ==> self.0@[j].header.state != free,
                exists|k: int| 0 <= k < self.0@.len() && #[trigger] self.0@[k].header.state == free,
            decreases self.0@.len() - i,
        {
            if self.0[i].header.state == free {
                self.0[i].header.state = State::Initialized.to_u8();
                self.0[i].future.init(future);
                return i;
            }
            i += 1;
        }
        proof {
            let k = choose|k: int| 0 <= k < self.0@.len() && #[trigger] self.0@[k].header.state == free;
            assert(self.0@[k].header.state != free);
        }
        0
    }
}


impl<F, const N: usize> TaskPool<F, N> {
    /// Initializes the first free slot with the task that `future` makes
    /// (see [`TaskPool::init`]) and pushes its index onto `worker`; when the
    /// run queue is full the task is initialized but not queued.
    pub fn spawn<G: FnOnce() -> F, const Q: usize>(&mut self, worker: &mut Worker<Q>, future: G) -> (r:
        usize)
        requires
            exists|i: int|
                0 <= i < old(self).0@.len() && #[trigger] old(self).0@[i].header.state
                    == State::Free.spec_to_u8(),
            future.requires(()),
            old(worker).wf(),
        ensures
            first_free(old(self).0@, r as int),
            final(self).0@.len() == old(self).0@.len(),
            final(self).0@[r as int].header == (TaskHeader {
                control: old(self).0@[r as int].header.control,
                state: State::Initialized.spec_to_u8(),
            }),
            final(self).0@[r as int].future.0 matches Some(f) && future.ensures((), f),
            forall|j: int|
                0 <= j < old(self).0@.len() && j != r ==> #[trigger] final(self).0@[j] == old(
                    self,
                ).0@[j],
            final(worker).wf(),
            old(worker)@.len() < Q ==> final(worker)@ == old(worker)@.pushed(r),
            old(worker)@.len() >= Q ==> final(worker)@ == old(worker)@,
    {
        let i = self.init(future);
        let _ = worker.push(i);
        i
    }
}

} // verus!
