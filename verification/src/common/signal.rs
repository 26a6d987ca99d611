//! Single-slot signals: one task deposits a value, another task waits for
//! it and takes it out.
use vstd::prelude::*;
use crate::poll::Poll;

verus! {

/// What a poll of a wait does to a slot holding `slot`: ready with the
/// value, which leaves the slot, or pending on an empty slot.
pub open spec fn take_slot<Data>(slot: Option<Data>) -> (Poll<Data>, Option<Data>) {
    match slot {
        Some(v) => (Poll::Ready(v), None),
        None => (Poll::Pending, None),
    }
}

/// What a poll of a flagged wait does to the slot `data` and the flag
/// `has_data`: pending while the flag is down; otherwise ready with the
/// value, which leaves the slot and lowers the flag, or pending on an empty
/// slot.
pub open spec fn take_flagged<Data>(data: Option<Data>, has_data: bool) -> (Poll<Data>, Option<Data>, bool) {
    if !has_data {
        (Poll::Pending, data, has_data)
    } else {
        match data {
            Some(v) => (Poll::Ready(v), None, false),
            None => (Poll::Pending, None, true),
        }
    }
}

/// A single-slot signal: [`Signal::signal`] stores a value, and each poll of
/// [`Signal::wait`] takes it out once it is there.
#[derive(Debug)]
pub struct Signal<Data>(Option<Data>);

impl<Data> View for Signal<Data> {
    type V = Option<Data>;

    closed spec fn view(&self) -> Option<Data> {
        self.0
    }
}

impl<Data> Signal<Data> {
    /// Creates an empty signal.
    pub fn new() -> (r: Self)
        ensures
            r@ is None,
    {
        Signal(None)
    }

    /// Stores `value`, replacing any value not taken out yet.
    pub fn signal(&mut self, value: Data)
        ensures
            final(self)@ == Some(value),
    {
        self.0 = Some(value);
    }

    /// One poll of the wait for the signal: takes the value out if it is
    /// there, and is pending otherwise.
    pub fn wait(&mut self) -> (r: Poll<Data>)
        ensures
            (r, final(self)@) == take_slot(old(self)@),
    {
        match self.0.take() {
            Some(data) => Poll::Ready(data),
            None => Poll::Pending,
        }
    }

    /// Whether a value is there, without taking it out.
    pub fn is_triggered(&self) -> (r: bool)
        ensures
            r == (self@ is Some),
    {
        self.0.is_some()
    }
}

/// A single-slot signal for statically allocated, lock-free use on one
/// core; it behaves as [`Signal`].
#[derive(Debug)]
pub struct UnsafeSignal<Data>(Option<Data>);

impl<Data> View for UnsafeSignal<Data> {
    type V = Option<Data>;

    closed spec fn view(&self) -> Option<Data> {
        self.0
    }
}

impl<Data> UnsafeSignal<Data> {
    /// Creates an untriggered signal.
    pub fn new() -> (r: Self)
        ensures
            r@ is None,
    {
        UnsafeSignal(None)
    }

    /// Triggers the signal with `value`, replacing any value not taken yet.
    pub fn signal(&mut self, value: Data)
        ensures
            final(self)@ == Some(value),
    {
        self.0 = Some(value);
    }

    /// Whether the signal is triggered, without taking the value out.
    pub fn is_triggered(&self) -> (r: bool)
        ensures
            r == (self@ is Some),
    {
        self.0.is_some()
    }

    /// One poll of the wait for the signal: takes the value out, resetting
    /// the signal, if it is triggered, and is pending otherwise.
    pub fn wait(&mut self) -> (r: Poll<Data>)
        ensures
            (r, final(self)@) == take_slot(old(self)@),
    {
        if self.0.is_some() {
            match self.0.take() {
                Some(data) => Poll::Ready(data),
                None => Poll::Pending,
            }
        } else {
            Poll::Pending
        }
    }
}

/// A single-slot mailbox with a "has data" flag that is checked before the
/// slot: reset on read, last write wins.
#[derive(Debug)]
pub struct MultiCoreSignal<Data> {
    data: Option<Data>,
    has_data: bool,
}

impl<Data> MultiCoreSignal<Data> {
    /// The value in the slot.
    pub closed spec fn spec_data(self) -> Option<Data> {
        self.data
    }

    /// The "has data" flag.
    pub closed spec fn spec_has_data(self) -> bool {
        self.has_data
    }

    /// Creates an empty signal.
    pub fn new() -> (r: Self)
        ensures
            r.spec_data() is None,
            !r.spec_has_data(),
    {
        MultiCoreSignal { data: None, has_data: false }
    }

    /// Deposits `data`, overwriting any value not read yet, and raises the flag.
    pub fn signal(&mut self, data: Data)
        ensures
            final(self).spec_data() == Some(data),
            final(self).spec_has_data(),
    {
        self.data = Some(data);
        self.has_data = true;
    }

    /// Clears the slot and lowers the flag.
    pub fn reset(&mut self)
        ensures
            final(self).spec_data() is None,
            !final(self).spec_has_data(),
    {
        self.has_data = false;
        self.data = None;
    }

    /// One poll of the wait for data: pending while the flag is down;
    /// otherwise takes the value out and lowers the flag, or stays pending
    /// if the slot turned out empty.
    pub fn wait(&mut self) -> (r: Poll<Data>)
        ensures
            (r, final(self).spec_data(), final(self).spec_has_data()) == take_flagged(
                old(self).spec_data(),
                old(self).spec_has_data(),
            ),
    {
        if !self.has_data {
            return Poll::Pending;
        }
        match self.data.take() {
            Some(data) => {
                self.has_data = false;
                Poll::Ready(data)
            },
            None => Poll::Pending,
        }
    }
}

/// Reset on read: a wait right after a signal of `v` is ready with `v`, and
/// the wait after that is pending until the next signal.
pub proof fn law_reset_on_read<Data>(v: Data)
    ensures
        take_slot(Some(v)) == (Poll::Ready(v), None::<Data>),
        take_slot(take_slot(Some(v)).1).0 == Poll::<Data>::Pending,
        take_flagged(Some(v), true) == (Poll::Ready(v), None::<Data>, false),
        take_flagged(take_flagged(Some(v), true).1, take_flagged(Some(v), true).2).0
            == Poll::<Data>::Pending,
{
}

/// A wait while the flag is down changes nothing, whatever the slot holds.
pub proof fn law_flag_gates_wait<Data>(data: Option<Data>)
    ensures
        take_flagged(data, false) == (Poll::<Data>::Pending, data, false),
{
}

} // verus!
