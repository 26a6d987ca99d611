//! The allocation-free executor of one core: it owns the core's run queue
//! and runs tasks through their life-cycle states.
use vstd::prelude::*;
use crate::no_alloc::task::{State, TaskSlot};
use crate::poll::{Poll, Pollable};
use crate::st3::lifo::Worker;

verus! {

/// The maximum number of cores.
pub const MAX_CORES: usize = 4;

/// The capacity of each core's run queue.
pub const QUEUE_SIZE: usize = 256;

/// The executor of one core.
#[derive(Debug)]
pub struct Executor<const N: usize> {
    /// The core's run queue.
    pub worker: Worker<N>,
}

impl<const N: usize> Executor<N> {
    /// Polls the task in `slot` once: the task is running while it is
    /// polled; afterwards its slot is free if it finished, and it has
    /// yielded otherwise. The wake control byte is left alone.
    pub fn execute<F: Pollable<Output = ()>>(&self, slot: &mut TaskSlot<F>) -> (r: Poll<()>)
        requires
            old(slot).future.0 is Some,
        ensures
            final(slot).header.control == old(slot).header.control,
            r is Ready ==> final(slot).header.state == State::Free.spec_to_u8(),
            r is Pending ==> final(slot).header.state == State::Yielded.spec_to_u8(),
            exists|f: F|
                #[trigger] old(slot).future.0->Some_0.step(f, r) && final(slot).future.0 == Some(f),
    {
        slot.header.state = State::Running.to_u8();
        let res = match slot.future.0.take() {
            Some(mut f) => {
                let ghost f0 = f;
                let p = f.poll();
                proof {
                    assert(f0.step(f, p));
                }
                slot.future.0 = Some(f);
                p
            },
            None => Poll::Pending,
        };
        match res {
            Poll::Ready(_) => {
                slot.header.state = State::Free.to_u8();
            },
            Poll::Pending => {
                slot.header.state = State::Yielded.to_u8();
            },
        }
        res
    }
}

} // verus!
