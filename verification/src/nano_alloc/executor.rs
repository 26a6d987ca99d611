//! A round-robin executor over a list of tasks, each polled no more often
//! than its interval allows.
use vstd::prelude::*;
use crate::nano_alloc::task::TaskNode;
use crate::poll::{Poll, Pollable};

verus! {

/// What a pass of the executor did with one task.
#[derive(Debug, Clone, Copy, PartialEq, Eq)]
pub enum Fate {
    /// Not polled: not due.
    Untouched,
    /// Polled and still pending: due again one interval later.
    Rescheduled,
    /// Polled and finished: removed from the list.
    Removed,
}

/// The tasks after a pass at tick `time`, given what happened to each task
/// and the state of each polled computation after its poll.
pub open spec fn pass<F>(nodes: Seq<TaskNode<F>>, time: u64, fates: Seq<Fate>, futs: Seq<F>) -> Seq<
    TaskNode<F>,
>
    decreases nodes.len(),
{
    if nodes.len() == 0 {
        Seq::empty()
    } else {
        let rest = pass(nodes.drop_first(), time, fates.drop_first(), futs.drop_first());
        let n = nodes[0];
        if fates[0] == Fate::Untouched {
            seq![n] + rest
        } else if fates[0] == Fate::Rescheduled {
            seq![TaskNode { future: futs[0], interval: n.interval, next_run_time: (time + n.interval) as u64 }]
                + rest
        } else {
            rest
        }
    }
}

/// Which tasks a pass at tick `time` polls: every due task, and no other.
pub open spec fn valid_fates<F>(nodes: Seq<TaskNode<F>>, time: u64, fates: Seq<Fate>) -> bool {
    &&& fates.len() == nodes.len()
    &&& forall|i: int|
        0 <= i < nodes.len() ==> {
            &&& time >= nodes[i].next_run_time ==> #[trigger] fates[i] != Fate::Untouched
            &&& time < nodes[i].next_run_time ==> fates[i] == Fate::Untouched
        }
}

/// Each polled task went one step: a finished task's computation was ready,
/// a rescheduled task's computation was pending and is now `futs[i]`.
pub open spec fn steps_taken<F: Pollable<Output = ()>>(
    nodes: Seq<TaskNode<F>>,
    fates: Seq<Fate>,
    futs: Seq<F>,
) -> bool {
    forall|i: int|
        0 <= i < fates.len() ==> {
            &&& #[trigger] fates[i] == Fate::Removed ==> nodes[i].future.step(futs[i], Poll::Ready(()))
            &&& fates[i] == Fate::Rescheduled ==> nodes[i].future.step(futs[i], Poll::Pending)
        }
}

/// What a pass did with task `i` follows the polling rule, and a polled
/// task went one step.
pub open spec fn fate_ok<F: Pollable<Output = ()>>(
    nodes: Seq<TaskNode<F>>,
    time: u64,
    fates: Seq<Fate>,
    futs: Seq<F>,
    i: int,
) -> bool {
    &&& time >= nodes[i].next_run_time ==> fates[i] != Fate::Untouched
    &&& time < nodes[i].next_run_time ==> fates[i] == Fate::Untouched
    &&& fates[i] == Fate::Removed ==> nodes[i].future.step(futs[i], Poll::Ready(()))
    &&& fates[i] == Fate::Rescheduled ==> nodes[i].future.step(futs[i], Poll::Pending)
}

/// The first `fates.len()` tasks were handled by the polling rule.
pub open spec fn prefix_ok<F: Pollable<Output = ()>>(
    nodes: Seq<TaskNode<F>>,
    time: u64,
    fates: Seq<Fate>,
    futs: Seq<F>,
) -> bool {
    &&& fates.len() <= nodes.len()
    &&& futs.len() == fates.len()
    &&& forall|i: int| 0 <= i < fates.len() ==> #[trigger] fate_ok(nodes, time, fates, futs, i)
}

/// The piece a pass makes of one task.
pub open spec fn piece<F>(n: TaskNode<F>, time: u64, fate: Fate, fut: F) -> Seq<TaskNode<F>> {
    if fate == Fate::Untouched {
        seq![n]
    } else if fate == Fate::Rescheduled {
        seq![TaskNode { future: fut, interval: n.interval, next_run_time: (time + n.interval) as u64 }]
    } else {
        Seq::empty()
    }
}

/// A pass over a list is the pass over all but the last task, followed by
/// the piece of the last task.
pub proof fn lemma_pass_snoc<F>(nodes: Seq<TaskNode<F>>, time: u64, fates: Seq<Fate>, futs: Seq<F>)
    requires
        nodes.len() > 0,
        fates.len() == nodes.len(),
        futs.len() == nodes.len(),
    ensures
        pass(nodes, time, fates, futs) == pass(
            nodes.drop_last(),
            time,
            fates.drop_last(),
            futs.drop_last(),
        ) + piece(nodes.last(), time, fates.last(), futs.last()),
    decreases nodes.len(),
{
    if nodes.len() > 1 {
        lemma_pass_snoc(nodes.drop_first(), time, fates.drop_first(), futs.drop_first());
        assert(nodes.drop_first().drop_last() =~= nodes.drop_last().drop_first());
        assert(fates.drop_first().drop_last() =~= fates.drop_last().drop_first());
        assert(futs.drop_first().drop_last() =~= futs.drop_last().drop_first());
        assert(pass(nodes, time, fates, futs) =~= pass(
            nodes.drop_last(),
            time,
            fates.drop_last(),
            futs.drop_last(),
        ) + piece(nodes.last(), time, fates.last(), futs.last()));
    } else {
        assert(pass(nodes.drop_first(), time, fates.drop_first(), futs.drop_first()) =~= Seq::<
            TaskNode<F>,
        >::empty());
        assert(pass(nodes.drop_last(), time, fates.drop_last(), futs.drop_last()) =~= Seq::<
            TaskNode<F>,
        >::empty());
        assert(pass(nodes, time, fates, futs) =~= pass(
            nodes.drop_last(),
            time,
            fates.drop_last(),
            futs.drop_last(),
        ) + piece(nodes.last(), time, fates.last(), futs.last()));
    }
}

/// Extending a partial pass by one more task.
proof fn lemma_pass_extend<F>(
    all: Seq<TaskNode<F>>,
    time: u64,
    f0: Seq<Fate>,
    f1: Seq<Fate>,
    u0: Seq<F>,
    u1: Seq<F>,
)
    requires
        f1.len() == f0.len() + 1,
        f1.drop_last() == f0,
        u1.drop_last() == u0,
        u1.len() == f1.len(),
        f1.len() <= all.len(),
    ensures
        pass(all.subrange(0, f1.len() as int), time, f1, u1) == pass(
            all.subrange(0, f0.len() as int),
            time,
            f0,
            u0,
        ) + piece(all[f0.len() as int], time, f1.last(), u1.last()),
{
    let pre = all.subrange(0, f1.len() as int);
    lemma_pass_snoc(pre, time, f1, u1);
    assert(pre.drop_last() =~= all.subrange(0, f0.len() as int));
}

/// A complete pass that followed the rule at every task is a valid pass.
proof fn lemma_prefix_valid<F: Pollable<Output = ()>>(
    nodes: Seq<TaskNode<F>>,
    time: u64,
    fates: Seq<Fate>,
    futs: Seq<F>,
)
    requires
        prefix_ok(nodes, time, fates, futs),
        fates.len() == nodes.len(),
    ensures
        valid_fates(nodes, time, fates),
        steps_taken(nodes, fates, futs),
{
    assert forall|i: int| 0 <= i < nodes.len() implies {
        &&& time >= nodes[i].next_run_time ==> #[trigger] fates[i] != Fate::Untouched
        &&& time < nodes[i].next_run_time ==> fates[i] == Fate::Untouched
    } by {
        assert(fate_ok(nodes, time, fates, futs, i));
    }
    assert forall|i: int| 0 <= i < fates.len() implies {
        &&& #[trigger] fates[i] == Fate::Removed ==> nodes[i].future.step(futs[i], Poll::Ready(()))
        &&& fates[i] == Fate::Rescheduled ==> nodes[i].future.step(futs[i], Poll::Pending)
    } by {
        assert(fate_ok(nodes, time, fates, futs, i));
    }
}

/// Taking the last element off a sequence takes the first off its reverse.
pub proof fn lemma_reverse_pop<A>(s: Seq<A>)
    requires
        s.len() > 0,
    ensures
        s.reverse()[0] == s.last(),
        s.drop_last().reverse() == s.reverse().drop_first(),
{
    assert(s.drop_last().reverse() =~= s.reverse().drop_first());
}

/// Appending to a sequence prepends to its reverse.
pub proof fn lemma_reverse_push<A>(s: Seq<A>, x: A)
    ensures
        s.push(x).reverse() == seq![x] + s.reverse(),
{
    assert(s.push(x).reverse() =~= seq![x] + s.reverse());
}

/// An executor: the tasks in polling order and the clock frequency.
pub struct Executor<F> {
    /// The tasks, last one first: the first task to poll is at the end.
    nodes: Vec<TaskNode<F>>,
    /// The hardware clock frequency in Hz, to turn task frequencies into
    /// tick intervals.
    pub freq: u64,
}

impl<F> Executor<F> {
    /// The clock frequency in Hz.
    pub closed spec fn spec_freq(self) -> u64 {
        self.freq
    }

    /// The tasks in polling order.
    pub closed spec fn tasks(self) -> Seq<TaskNode<F>> {
        self.nodes@.reverse()
    }

    /// An executor without tasks for a clock of `freq` Hz.
    pub fn new(freq: u64) -> (r: Self)
        ensures
            r.tasks() == Seq::<TaskNode<F>>::empty(),
            r.spec_freq() == freq,
    {
        let r = Executor { nodes: Vec::new(), freq };
        assert(r.tasks() =~= Seq::<TaskNode<F>>::empty());
        r
    }

    /// Adds a task at the front: its frequency becomes the interval
    /// `freq / frequency` in ticks, or zero (every pass) for a zero frequency.
    pub fn add(&mut self, node: TaskNode<F>) -> (r: &mut Self)
        ensures
            r.spec_freq() == old(self).spec_freq(),
            r.tasks() == seq![
                TaskNode {
                    future: node.future,
                    interval: if node.interval == 0 {
                        0
                    } else {
                        (old(self).spec_freq() / node.interval) as u64
                    },
                    next_run_time: node.next_run_time,
                },
            ] + old(self).tasks(),
            *final(self) == *final(r),
    {
        let mut node = node;
        node.interval = match self.freq.checked_div(node.interval) {
            Some(i) => i,
            None => 0,
        };
        self.nodes.push(node);
        proof {
            assert(self.tasks() =~= seq![node] + old(self).tasks());
        }
        self
    }
}

impl<F> Executor<F> {
    /// Whether a pass at tick `time` can reschedule every due task without
    /// the next run time overflowing: what [`Executor::run_step`] requires.
    pub fn step_fits(&self, time: u64) -> (r: bool)
        ensures
            r == (forall|i: int|
                0 <= i < self.tasks().len() ==> time < #[trigger] self.tasks()[i].next_run_time
                    || time + self.tasks()[i].interval <= u64::MAX),
    {
        let mut k: usize = 0;
        while k < self.nodes.len()
            invariant
                k <= self.nodes@.len(),
                forall|j: int|
                    0 <= j < k ==> time < #[trigger] self.nodes@[j].next_run_time || time
                        + self.nodes@[j].interval <= u64::MAX,
            decreases self.nodes@.len() - k,
        {
            let node = &self.nodes[k];
            if time >= node.next_run_time && node.interval > u64::MAX - time {
                proof {
                    let i = self.nodes@.len() - 1 - k;
                    assert(self.tasks()[i] == self.nodes@[k as int]);
                }
                return false;
            }
            k += 1;
        }
        proof {
            assert forall|i: int| 0 <= i < self.tasks().len() implies time
                < #[trigger] self.tasks()[i].next_run_time || time + self.tasks()[i].interval
                <= u64::MAX by {
                let j = self.nodes@.len() - 1 - i;
                assert(self.tasks()[i] == self.nodes@[j]);
            }
        }
        true
    }
}

impl<F: Pollable<Output = ()>> Executor<F> {
    /// One pass over all tasks at tick `time`: each due task is polled
    /// once; a finished task is removed; a pending one is due again one
    /// interval later.
    pub fn run_step(&mut self, time: u64)
        requires
            forall|i: int|
                0 <= i < old(self).tasks().len() ==> time < #[trigger] old(self).tasks()[i].next_run_time
                    || time + old(self).tasks()[i].interval <= u64::MAX,
        ensures
            final(self).spec_freq() == old(self).spec_freq(),
            exists|fates: Seq<Fate>, futs: Seq<F>|
                {
                    &&& valid_fates(old(self).tasks(), time, fates)
                    &&& futs.len() == fates.len()
                    &&& steps_taken(old(self).tasks(), fates, futs)
                    &&& final(self).tasks() == pass(old(self).tasks(), time, fates, futs)
                },
    {
        let ghost all = self.tasks();
        let mut kept: Vec<TaskNode<F>> = Vec::new();
        let ghost mut fates: Seq<Fate> = Seq::empty();
        let ghost mut futs: Seq<F> = Seq::empty();
        proof {
            assert(all.subrange(0, 0) =~= Seq::<TaskNode<F>>::empty());
        }
        while self.nodes.len() > 0
            invariant
                all == old(self).tasks(),
                self.freq == old(self).freq,
                fates.len() == futs.len(),
                fates.len() + self.nodes.len() == all.len(),
                self.nodes@.reverse() == all.subrange(fates.len() as int, all.len() as int),
                forall|i: int|
                    0 <= i < all.len() ==> time < #[trigger] all[i].next_run_time || time
                        + all[i].interval <= u64::MAX,
                prefix_ok(all, time, fates, futs),
                kept@ == pass(all.subrange(0, fates.len() as int), time, fates, futs),
            decreases self.nodes.len(),
        {
            let ghost k = fates.len();
            let ghost before = self.nodes@;
            let ghost kept0 = kept@;
            let ghost futs0 = futs;
            let mut node = self.nodes.pop().unwrap();
            proof {
                lemma_reverse_pop(before);
                assert(all.subrange(k as int, all.len() as int)[0] == all[k as int]);
                assert(node == all[k as int]);
                assert(self.nodes@.reverse() =~= all.subrange(k + 1int, all.len() as int));
            }
            let ghost f0 = node.future;
            let fate;
            if time >= node.next_run_time {
                let res = node.future.poll();
                proof {
                    assert(f0.step(node.future, res));
                }
                match res {
                    Poll::Ready(out) => {
                        fate = Fate::Removed;
                        proof {
                            assert(out == ());
                            assert(res == Poll::Ready(()));
                            futs = futs.push(node.future);
                        }
                    },
                    Poll::Pending => {
                        node.next_run_time = time + node.interval;
                        proof {
                            futs = futs.push(node.future);
                        }
                        kept.push(node);
                        fate = Fate::Rescheduled;
                    },
                }
            } else {
                kept.push(node);
                fate = Fate::Untouched;
                proof {
                    futs = futs.push(node.future);
                }
            }
            proof {
                let old_fates = fates;
                let old_futs = futs0;
                assert(futs.drop_last() =~= futs0);
                fates = fates.push(fate);
                assert(fates.drop_last() =~= old_fates);
                lemma_pass_extend(all, time, old_fates, fates, old_futs, futs);
                assert(kept@ =~= kept0 + piece(all[k as int], time, fate, futs.last()));
                assert(kept@ =~= pass(all.subrange(0, fates.len() as int), time, fates, futs));
                assert forall|i: int| 0 <= i < fates.len() implies #[trigger] fate_ok(
                    all,
                    time,
                    fates,
                    futs,
                    i,
                ) by {
                    if i < k {
                        assert(fate_ok(all, time, old_fates, old_futs, i));
                    } else {
                        assert(all[i].future == f0);
                    }
                }
            }
        }
        let mut rev: Vec<TaskNode<F>> = Vec::new();
        proof {
            assert(all.subrange(0, all.len() as int) =~= all);
            assert(kept@ + rev@.reverse() =~= kept@);
        }
        while kept.len() > 0
            invariant
                kept@ + rev@.reverse() == pass(all, time, fates, futs),
            decreases kept.len(),
        {
            let ghost kept0 = kept@;
            let ghost rev0 = rev@;
            let n = kept.pop().unwrap();
            rev.push(n);
            proof {
                lemma_reverse_push(rev0, n);
                assert(kept@ + rev@.reverse() =~= kept0 + rev0.reverse());
            }
        }
        self.nodes = rev;
        proof {
            assert(all.subrange(0, all.len() as int) =~= all);
            lemma_prefix_valid(all, time, fates, futs);
        }
    }
}

} // verus!

verus! {

/// A pass in which every task is left untouched gives the tasks back.
proof fn lemma_pass_untouched<F>(nodes: Seq<TaskNode<F>>, time: u64, fates: Seq<Fate>, futs: Seq<F>)
    requires
        fates.len() == nodes.len(),
        forall|i: int| 0 <= i < fates.len() ==> fates[i] == Fate::Untouched,
    ensures
        pass(nodes, time, fates, futs) == nodes,
    decreases nodes.len(),
{
    if nodes.len() > 0 {
        lemma_pass_untouched(nodes.drop_first(), time, fates.drop_first(), futs.drop_first());
        assert(pass(nodes, time, fates, futs) =~= nodes);
    }
}

/// A pass at a tick before every task is due changes nothing: no task is
/// polled, removed or rescheduled.
pub proof fn law_idle_pass<F>(nodes: Seq<TaskNode<F>>, time: u64, fates: Seq<Fate>, futs: Seq<F>)
    requires
        valid_fates(nodes, time, fates),
        forall|i: int| 0 <= i < nodes.len() ==> time < #[trigger] nodes[i].next_run_time,
    ensures
        forall|i: int| 0 <= i < fates.len() ==> fates[i] == Fate::Untouched,
        pass(nodes, time, fates, futs) == nodes,
{
    assert forall|i: int| 0 <= i < fates.len() implies fates[i] == Fate::Untouched by {
        assert(time < nodes[i].next_run_time);
    }
    lemma_pass_untouched(nodes, time, fates, futs);
}

/// A pass never adds tasks: every task after it was one before it, and
/// only finished tasks leave.
pub proof fn law_pass_never_grows<F>(nodes: Seq<TaskNode<F>>, time: u64, fates: Seq<Fate>, futs: Seq<F>)
    requires
        fates.len() == nodes.len(),
    ensures
        pass(nodes, time, fates, futs).len() <= nodes.len(),
        (forall|i: int| 0 <= i < fates.len() ==> fates[i] != Fate::Removed) ==> pass(
            nodes,
            time,
            fates,
            futs,
        ).len() == nodes.len(),
    decreases nodes.len(),
{
    if nodes.len() > 0 {
        law_pass_never_grows(nodes.drop_first(), time, fates.drop_first(), futs.drop_first());
        if forall|i: int| 0 <= i < fates.len() ==> fates[i] != Fate::Removed {
            assert forall|i: int| 0 <= i < fates.drop_first().len() implies fates.drop_first()[i]
                != Fate::Removed by {
                assert(fates[i + 1] != Fate::Removed);
            }
        }
    }
}

/// A pass in which no task finishes keeps every task in its place: a task
/// left alone is unchanged, and a polled task keeps its interval, takes its
/// new state, and is next due one interval after the pass, at `time` plus
/// its interval.
pub proof fn law_pass_reschedules_from_now<F>(
    nodes: Seq<TaskNode<F>>,
    time: u64,
    fates: Seq<Fate>,
    futs: Seq<F>,
)
    requires
        fates.len() == nodes.len(),
        futs.len() == nodes.len(),
        forall|i: int| 0 <= i < fates.len() ==> fates[i] != Fate::Removed,
        forall|i: int|
            0 <= i < fates.len() && fates[i] == Fate::Rescheduled ==> time + nodes[i].interval
                <= u64::MAX,
    ensures
        pass(nodes, time, fates, futs).len() == nodes.len(),
        forall|i: int|
            0 <= i < nodes.len() && fates[i] == Fate::Untouched ==> #[trigger] pass(
                nodes,
                time,
                fates,
                futs,
            )[i] == nodes[i],
        forall|i: int|
            0 <= i < nodes.len() && fates[i] == Fate::Rescheduled ==> #[trigger] pass(
                nodes,
                time,
                fates,
                futs,
            )[i].next_run_time == time + nodes[i].interval && pass(nodes, time, fates, futs)[i].interval
                == nodes[i].interval && pass(nodes, time, fates, futs)[i].future == futs[i],
    decreases nodes.len(),
{
    if nodes.len() > 0 {
        let (n2, f2, u2) = (nodes.drop_first(), fates.drop_first(), futs.drop_first());
        assert forall|i: int| 0 <= i < f2.len() implies f2[i] != Fate::Removed by {
            assert(fates[i + 1] != Fate::Removed);
        }
        assert forall|i: int| 0 <= i < f2.len() && f2[i] == Fate::Rescheduled implies time
            + n2[i].interval <= u64::MAX by {
            assert(fates[i + 1] == Fate::Rescheduled);
        }
        law_pass_reschedules_from_now(n2, time, f2, u2);
        let all = pass(nodes, time, fates, futs);
        let rest = pass(n2, time, f2, u2);
        assert(fates[0] != Fate::Removed);
        assert forall|i: int| 1 <= i < nodes.len() implies #[trigger] all[i] == rest[i - 1] by {}
        assert forall|i: int| 0 <= i < nodes.len() && fates[i] == Fate::Rescheduled implies all[i].next_run_time
            == time + nodes[i].interval && all[i].interval == nodes[i].interval && all[i].future
            == futs[i] by {
            if i > 0 {
                assert(all[i] == rest[i - 1]);
                assert(f2[i - 1] == Fate::Rescheduled);
                assert(rest[i - 1].next_run_time == time + n2[i - 1].interval);
            } else {
                assert(time + nodes[0].interval <= u64::MAX);
            }
        }
        assert forall|i: int| 0 <= i < nodes.len() && fates[i] == Fate::Untouched implies all[i]
            == nodes[i] by {
            if i > 0 {
                assert(all[i] == rest[i - 1]);
                assert(f2[i - 1] == Fate::Untouched);
            }
        }
    }
}

/// A pass polls exactly the due tasks: a task whose due tick has come is
/// never left alone, and a task not yet due is never polled.
pub proof fn law_pass_polls_due_tasks<F>(nodes: Seq<TaskNode<F>>, time: u64, fates: Seq<Fate>, i: int)
    requires
        valid_fates(nodes, time, fates),
        0 <= i < nodes.len(),
    ensures
        nodes[i].next_run_time <= time ==> fates[i] == Fate::Rescheduled || fates[i] == Fate::Removed,
        time < nodes[i].next_run_time ==> fates[i] == Fate::Untouched,
{
}

} // verus!
