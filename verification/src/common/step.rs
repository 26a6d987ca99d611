//! Execution pacing: yielding to the scheduler, skipping scheduler passes,
//! and a countdown that spaces out such waits.
use vstd::prelude::*;
use crate::poll::Poll;

verus! {

/// A request to give control back to the executor once.
#[derive(Debug)]
pub struct Yield;

impl Yield {
    /// The future that yields once.
    pub fn into_future(self) -> (r: _Yield)
        ensures
            !r.0,
    {
        _Yield(false)
    }
}

/// The future behind [`Yield`]: pending on its first poll, ready on the next.
#[derive(Debug)]
pub struct _Yield(pub bool);

impl _Yield {
    /// Polls the yield: the first poll is pending, every later one is ready.
    pub fn poll(&mut self) -> (r: Poll<()>)
        ensures
            old(self).0 ==> r == Poll::Ready(()) && final(self).0,
            !old(self).0 ==> r == Poll::<()>::Pending && final(self).0,
    {
        if self.0 {
            Poll::Ready(())
        } else {
            self.0 = true;
            Poll::Pending
        }
    }
}

/// A future that skips a fixed number of executor polling cycles.
#[derive(Debug)]
pub struct Skip(pub usize);

impl Skip {
    /// What one poll of a skip with `left` cycles to go returns, and the
    /// cycles left after it.
    pub open spec fn poll_spec(left: usize) -> (usize, Poll<()>) {
        if left == 0 {
            (0usize, Poll::Ready(()))
        } else {
            ((left - 1) as usize, Poll::Pending)
        }
    }

    /// Polls the skip: pending while cycles remain to be skipped, counting
    /// one down per poll, then ready.
    pub fn poll(&mut self) -> (r: Poll<()>)
        ensures
            (final(self).0, r) == Self::poll_spec(old(self).0),
    {
        if self.0 == 0 {
            Poll::Ready(())
        } else {
            self.0 = self.0 - 1;
            Poll::Pending
        }
    }
}

/// The cycles left and the number of pending results after `k` polls of a
/// skip that had `left` cycles to go.
pub open spec fn skip_polls(left: usize, k: nat) -> (usize, nat)
    decreases k,
{
    if k == 0 {
        (left, 0)
    } else {
        let (l, pendings) = skip_polls(left, (k - 1) as nat);
        let (l2, r) = Skip::poll_spec(l);
        (l2, if r is Pending { pendings + 1 } else { pendings })
    }
}

/// A skip of `n` cycles is pending on each of its first `n` polls and ready
/// on the next one.
pub proof fn law_skip_pendings(n: usize, k: nat)
    requires
        k <= n,
    ensures
        skip_polls(n, k) == ((n - k) as usize, k),
        k == n ==> Skip::poll_spec(skip_polls(n, k).0).1 == Poll::<()>::Ready(()),
    decreases k,
{
    if k > 0 {
        law_skip_pendings(n, (k - 1) as nat);
    }
}

/// What a pacing step waits for before the task goes on.
#[derive(Debug, Clone, Copy, PartialEq, Eq)]
pub enum Pace {
    /// No wait: the task goes on at once.
    Go,
    /// One [`Yield`].
    Yield,
    /// A [`Skip`] of this many cycles.
    Skip(usize),
}

/// A countdown that spaces out waits: a step waits only once the countdown
/// has run out.
#[derive(Debug)]
pub struct Pacer {
    count: usize,
    countdown: usize,
}

impl Pacer {
    /// The reload value of the countdown.
    pub closed spec fn spec_count(self) -> usize {
        self.count
    }

    /// The number of steps left before the next wait.
    pub closed spec fn spec_countdown(self) -> usize {
        self.countdown
    }

    /// The wait a step makes, given the countdown, and the countdown after it:
    /// a step counts the countdown down and waits on the step that brings it
    /// to zero, or on any step once it is out.
    pub open spec fn step_spec(count: usize, countdown: usize, yield_count: usize, repeat: bool) -> (
        usize,
        Pace,
    ) {
        if countdown > 1 {
            ((countdown - 1) as usize, Pace::Go)
        } else {
            (
                if repeat {
                    count
                } else {
                    0usize
                },
                if yield_count == 0 {
                    Pace::Yield
                } else {
                    Pace::Skip(yield_count)
                },
            )
        }
    }

    /// Creates a pacer that waits after `count` steps.
    pub fn new(count: usize) -> (r: Self)
        ensures
            r.spec_count() == count,
            r.spec_countdown() == count,
    {
        Pacer { count, countdown: count }
    }

    /// Changes the reload value of the countdown.
    pub fn count_update(&mut self, count: usize) -> (r: &mut Self)
        ensures
            r.spec_count() == count,
            r.spec_countdown() == old(self).spec_countdown(),
            *final(self) == *final(r),
    {
        self.count = count;
        self
    }

    /// One pacing step: counts the countdown down; on the step that brings it
    /// to zero, and on every step once it is out, waits (a [`Yield`] when
    /// `yield_count` is zero, a [`Skip`] of `yield_count` cycles otherwise)
    /// and, when `repeat` is set, reloads it.
    pub fn step(&mut self, yield_count: usize, repeat: bool) -> (r: Pace)
        ensures
            (final(self).spec_countdown(), r) == Self::step_spec(
                old(self).spec_count(),
                old(self).spec_countdown(),
                yield_count,
                repeat,
            ),
            final(self).spec_count() == old(self).spec_count(),
    {
        if self.countdown > 1 {
            self.countdown = self.countdown - 1;
            Pace::Go
        } else {
            if repeat {
                self.countdown = self.count;
            } else {
                self.countdown = 0;
            }
            if yield_count == 0 {
                Pace::Yield
            } else {
                Pace::Skip(yield_count)
            }
        }
    }

    /// Goes on until the countdown runs out, yields on that step and on every
    /// step after it.
    pub fn throttle(&mut self) -> (r: Pace)
        ensures
            (final(self).spec_countdown(), r) == Self::step_spec(
                old(self).spec_count(),
                old(self).spec_countdown(),
                0,
                false,
            ),
            final(self).spec_count() == old(self).spec_count(),
    {
        self.step(0, false)
    }

    /// Yields once every `count` steps: on the step that runs the countdown
    /// out, which reloads it.
    pub fn repeat(&mut self) -> (r: Pace)
        ensures
            (final(self).spec_countdown(), r) == Self::step_spec(
                old(self).spec_count(),
                old(self).spec_countdown(),
                0,
                true,
            ),
            final(self).spec_count() == old(self).spec_count(),
    {
        self.step(0, true)
    }

    /// Skips `i` cycles once every `count` steps: on the step that runs the
    /// countdown out, which reloads it.
    pub fn burst(&mut self, i: usize) -> (r: Pace)
        ensures
            (final(self).spec_countdown(), r) == Self::step_spec(
                old(self).spec_count(),
                old(self).spec_countdown(),
                i,
                true,
            ),
            final(self).spec_count() == old(self).spec_count(),
    {
        self.step(i, true)
    }
}

/// The countdown and the number of waits after `n` repeating steps.
pub open spec fn repeat_steps(count: usize, countdown: usize, n: nat) -> (usize, nat)
    decreases n,
{
    if n == 0 {
        (countdown, 0)
    } else {
        let (c, waits) = repeat_steps(count, countdown, (n - 1) as nat);
        let (c2, pace) = Pacer::step_spec(count, c, 0, true);
        (c2, if pace == Pace::Go { waits } else { waits + 1 })
    }
}

/// Once the countdown is at one or has run out, a throttle waits at every
/// step and the countdown stays out.
pub proof fn law_throttle_stays(count: usize, countdown: usize)
    requires
        countdown <= 1,
    ensures
        Pacer::step_spec(count, countdown, 0, false) == (0usize, Pace::Yield),
{
}

/// A repeating pacer freshly reloaded to `count` goes on, without waiting,
/// for its first `count - 1` steps.
pub proof fn law_repeat_goes_on(count: usize, n: nat)
    requires
        n < count,
    ensures
        repeat_steps(count, count, n) == ((count - n) as usize, 0nat),
{
    lemma_repeat_from(count, count, n);
}

/// A repeating pacer freshly reloaded to `count` waits exactly once in
/// `count` steps, on the last one, which reloads it again.
pub proof fn law_repeat_period(count: usize)
    requires
        count > 0,
    ensures
        repeat_steps(count, count, count as nat) == (count, 1nat),
{
    lemma_repeat_from(count, count, (count - 1) as nat);
}

/// Running `a` steps and then `b` more is running `a + b` steps.
proof fn lemma_repeat_steps_split(count: usize, countdown: usize, a: nat, b: nat)
    ensures
        repeat_steps(count, countdown, a + b) == (
            repeat_steps(count, repeat_steps(count, countdown, a).0, b).0,
            repeat_steps(count, countdown, a).1 + repeat_steps(
                count,
                repeat_steps(count, countdown, a).0,
                b,
            ).1,
        ),
    decreases b,
{
    if b > 0 {
        lemma_repeat_steps_split(count, countdown, a, (b - 1) as nat);
        assert((a + b - 1) as nat == a + (b - 1) as nat);
    }
}

/// Over `k` whole periods of `count` steps, a repeating pacer waits exactly
/// `k` times and ends freshly reloaded.
pub proof fn law_repeat_every(count: usize, k: nat)
    requires
        count > 0,
    ensures
        repeat_steps(count, count, (k * count) as nat) == (count, k),
    decreases k,
{
    if k > 0 {
        let before: nat = ((k - 1) * count) as nat;
        law_repeat_every(count, (k - 1) as nat);
        assert(k * count == (k - 1) * count + count && (k - 1) * count >= 0) by (nonlinear_arith)
            requires
                k > 0,
                count > 0,
        ;
        lemma_repeat_steps_split(count, count, before, count as nat);
        law_repeat_period(count);
        assert(before + count as nat == (k * count) as nat);
    } else {
        assert(k * count == 0) by (nonlinear_arith)
            requires
                k == 0,
        ;
    }
}

/// A count set with `count_update` takes effect at the next reload: the
/// countdown in progress runs out as before, and the step that ends it
/// reloads to the new count.
pub proof fn law_count_update(new_count: usize, countdown: usize)
    requires
        countdown > 0,
    ensures
        repeat_steps(new_count, countdown, countdown as nat) == (new_count, 1nat),
{
    lemma_repeat_from(new_count, countdown, (countdown - 1) as nat);
}

/// From a countdown of `countdown`, the first `n < countdown` repeating steps
/// go on and count down.
proof fn lemma_repeat_from(count: usize, countdown: usize, n: nat)
    requires
        n < countdown,
    ensures
        repeat_steps(count, countdown, n) == ((countdown - n) as usize, 0nat),
    decreases n,
{
    if n > 0 {
        lemma_repeat_from(count, countdown, (n - 1) as nat);
    }
}

/// How a pacing step waits: it goes on exactly while the countdown is above
/// one; otherwise it waits with a single yield when `yield_count` is zero and
/// with a skip of `yield_count` cycles otherwise. The wait never depends on
/// whether the step repeats or on the reload count; a repeating step that
/// waits reloads the countdown to the count, and any other waiting step
/// leaves it out.
pub proof fn law_step_waits(count: usize, countdown: usize, yield_count: usize, repeat: bool)
    ensures
        (Pacer::step_spec(count, countdown, yield_count, repeat).1 == Pace::Go) <==> countdown > 1,
        countdown > 1 ==> Pacer::step_spec(count, countdown, yield_count, repeat).0 == countdown - 1,
        countdown <= 1 && yield_count == 0 ==> Pacer::step_spec(
            count,
            countdown,
            yield_count,
            repeat,
        ).1 == Pace::Yield,
        countdown <= 1 && yield_count > 0 ==> Pacer::step_spec(
            count,
            countdown,
            yield_count,
            repeat,
        ).1 == Pace::Skip(yield_count),
        Pacer::step_spec(count, countdown, yield_count, true).1 == Pacer::step_spec(
            0,
            countdown,
            yield_count,
            false,
        ).1,
        countdown <= 1 && repeat ==> Pacer::step_spec(count, countdown, yield_count, repeat).0
            == count,
        countdown <= 1 && !repeat ==> Pacer::step_spec(count, countdown, yield_count, repeat).0
            == 0,
{
}

} // verus!
