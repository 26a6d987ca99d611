//! Task slots for the work-stealing executor: a header with the wake
//! control byte and the occupancy byte, and the task itself.
use vstd::prelude::*;
use crate::poll::Pollable;

verus! {

/// A task computation: it produces nothing and may move between cores.
pub trait SafeFuture: Pollable<Output = ()> + Send + Sync + 'static {}

impl<T: Pollable<Output = ()> + Send + Sync + 'static> SafeFuture for T {}

/// An empty slot.
pub const SLOT_EMPTY: u8 = 0;

/// A slot that holds a task.
pub const SLOT_OCCUPIED: u8 = 1;

/// The header of a task slot.
#[derive(Debug, Clone, Copy, PartialEq, Eq)]
pub struct TaskHeader {
    /// Wake policy and wake flag.
    pub control: u8,
    /// [`SLOT_EMPTY`] or [`SLOT_OCCUPIED`].
    pub occupied: u8,
}

/// A task slot: its header and its task.
#[derive(Debug)]
pub struct TaskSlot<F> {
    /// The header.
    pub header: TaskHeader,
    /// The task, while the slot holds one.
    pub future: Option<F>,
}

impl<F> TaskSlot<F> {
    /// An empty slot with the poll-only policy and no wake flag.
    pub fn new() -> (r: Self)
        ensures
            r.header == (TaskHeader { control: 0, occupied: SLOT_EMPTY }),
            r.future is None,
    {
        TaskSlot { header: TaskHeader { control: 0, occupied: SLOT_EMPTY }, future: None }
    }
}

/// A pool of `N` task slots.
#[derive(Debug)]
pub struct TaskPool<F, const N: usize>(pub Vec<TaskSlot<F>>);

impl<F, const N: usize> TaskPool<F, N> {
    /// A pool of `N` empty slots.
    pub fn new() -> (r: Self)
        ensures
            r.0@.len() == N,
            forall|i: int|
                0 <= i < N ==> (#[trigger] r.0@[i]).header == (TaskHeader {
                    control: 0,
                    occupied: SLOT_EMPTY,
                }) && r.0@[i].future is None,
    {
        let mut slots: Vec<TaskSlot<F>> = Vec::new();
        let mut i: usize = 0;
        while i < N
            invariant
                i <= N,
                slots@.len() == i,
                forall|j: int|
                    0 <= j < i ==> (#[trigger] slots@[j]).header == (TaskHeader {
                        control: 0,
                        occupied: SLOT_EMPTY,
                    }) && slots@[j].future is None,
            decreases N - i,
        {
            slots.push(TaskSlot::new());
            i += 1;
        }
        TaskPool(slots)
    }
}

} // verus!
