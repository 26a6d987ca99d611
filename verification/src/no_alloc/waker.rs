//! Wake policies: when a task is polled, and the control byte that holds
//! the policy and the wake flag.
use vstd::prelude::*;
use crate::no_alloc::task::{State, TaskHeader};
use crate::st3::lifo::Worker;

verus! {

/// When a task is polled.
#[derive(Debug, Clone, Copy, PartialEq, Eq, Structural)]
pub enum WakePolicy {
    /// Polled on every executor pass.
    PollOnly,
    /// Polled only after it has been woken.
    InterruptOnly,
    /// Polled on every pass; waking it only speeds it up.
    Hybrid,
}

/// The wake flag: bit 7 of the control byte.
pub const WAKE_BIT: u8 = 0b1000_0000;

/// The policy bits: bits 0 and 1 of the control byte.
pub const POLICY_MASK: u8 = 0b0000_0011;

impl WakePolicy {
    /// The policy that the two policy bits `bits` encode, if any.
    pub open spec fn from_bits(bits: u8) -> Option<WakePolicy> {
        if bits == 0 {
            Some(WakePolicy::PollOnly)
        } else if bits == 1 {
            Some(WakePolicy::InterruptOnly)
        } else if bits == 2 {
            Some(WakePolicy::Hybrid)
        } else {
            None
        }
    }

    /// The encoding of the policy in the policy bits.
    pub fn bits(self) -> (r: u8)
        ensures
            WakePolicy::from_bits(r) == Some(self),
    {
        match self {
            WakePolicy::PollOnly => 0b00,
            WakePolicy::InterruptOnly => 0b01,
            WakePolicy::Hybrid => 0b10,
        }
    }

    /// Splits a control byte into its policy and its wake flag.
    pub fn unpack(control: u8) -> (r: (Self, bool))
        requires
            control & POLICY_MASK != 3,
        ensures
            WakePolicy::from_bits(control & POLICY_MASK) == Some(r.0),
            r.1 == (control & WAKE_BIT != 0),
    {
        let bits = control & POLICY_MASK;
        assert(bits <= 3) by (bit_vector)
            requires
                bits == control & 3u8,
        ;
        let policy = if bits == 0b00 {
            WakePolicy::PollOnly
        } else if bits == 0b01 {
            WakePolicy::InterruptOnly
        } else {
            WakePolicy::Hybrid
        };
        let is_waked = (control & WAKE_BIT) != 0;
        (policy, is_waked)
    }

    /// Whether a task with this policy is polled, given its wake flag.
    pub fn should_poll(self, is_waked: bool) -> (r: bool)
        ensures
            r == (self != WakePolicy::InterruptOnly || is_waked),
    {
        match self {
            WakePolicy::PollOnly => true,
            WakePolicy::Hybrid => true,
            WakePolicy::InterruptOnly => is_waked,
        }
    }
}

/// Wakes a task: marks it ready and pushes `task` onto the run queue of
/// the core that its control byte names; when that queue is full the task
/// is not queued again.
pub fn wake<const N: usize>(header: &mut TaskHeader, task: usize, queues: &mut Vec<Worker<N>>)
    requires
        (old(header).control as int) < old(queues)@.len(),
        old(queues)@[old(header).control as int].wf(),
    ensures
        final(header).state == State::Ready.spec_to_u8(),
        final(header).control == old(header).control,
        final(queues)@.len() == old(queues)@.len(),
        forall|i: int|
            0 <= i < old(queues)@.len() && i != old(header).control ==> #[trigger] final(queues)@[i]
                == old(queues)@[i],
        final(queues)@[old(header).control as int].wf(),
        old(queues)@[old(header).control as int]@.len() < N
            ==> final(queues)@[old(header).control as int]@
            == old(queues)@[old(header).control as int]@.pushed(task),
        old(queues)@[old(header).control as int]@.len() >= N
            ==> final(queues)@[old(header).control as int]@
            == old(queues)@[old(header).control as int]@,
{
    header.state = State::Ready.to_u8();
    let core = header.control as usize;
    let _ = queues[core].push(task);
}

/// Unpacking the encoding of a policy, with or without the wake flag, gives
/// the policy and the flag back.
pub proof fn law_unpack_bits(p: WakePolicy, bits: u8, waked: bool)
    requires
        WakePolicy::from_bits(bits) == Some(p),
    ensures
        WakePolicy::from_bits((bits | (if waked { WAKE_BIT } else { 0u8 })) & POLICY_MASK) == Some(p),
        (((bits | (if waked { WAKE_BIT } else { 0u8 })) & WAKE_BIT) != 0) == waked,
{
    assert(bits <= 2);
    if waked {
        assert(bits <= 2 ==> (bits | 128u8) & 3u8 == bits && ((bits | 128u8) & 128u8) != 0) by (bit_vector);
    } else {
        assert(bits <= 2 ==> (bits | 0u8) & 3u8 == bits && ((bits | 0u8) & 128u8) == 0) by (bit_vector);
    }
}

/// Only the policy bits and the wake flag of a control byte matter: two
/// control bytes that agree on bits 0, 1 and 7 unpack to the same policy and
/// the same wake flag, whatever bits 2 to 6 hold.
pub proof fn law_unpack_ignores_middle_bits(a: u8, b: u8)
    requires
        a & 0x83u8 == b & 0x83u8,
    ensures
        WakePolicy::from_bits(a & POLICY_MASK) == WakePolicy::from_bits(b & POLICY_MASK),
        (a & WAKE_BIT != 0) == (b & WAKE_BIT != 0),
{
    assert(a & 0x83u8 == b & 0x83u8 ==> a & 3u8 == b & 3u8 && ((a & 128u8) != 0) == ((b & 128u8)
        != 0)) by (bit_vector);
}

} // verus!
