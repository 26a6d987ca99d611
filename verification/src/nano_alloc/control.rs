//! Combinators over computations: run two to completion, run two that may
//! fail, collect the results of two, or take the first of two to finish.
use vstd::prelude::*;
use crate::poll::{stepped, Poll, Pollable};

verus! {

/// Two computations run side by side until both have finished.
#[derive(Debug)]
pub struct Join<H, T> {
    /// The first computation.
    pub head: H,
    /// The second computation.
    pub tail: T,
    /// Whether the first has finished.
    pub head_done: bool,
    /// Whether the second has finished.
    pub tail_done: bool,
}

impl<H: Pollable<Output = ()>, T: Pollable<Output = ()>> Join<H, T> {
    /// Polls each computation that has not finished yet, once; ready when
    /// both have finished.
    pub fn poll(&mut self) -> (r: Poll<()>)
        ensures
            exists|hp: Option<Poll<()>>, tp: Option<Poll<()>>|
                #![trigger stepped(old(self).head, final(self).head, hp), stepped(old(self).tail, final(self).tail, tp)]
                {
                    &&& stepped(old(self).head, final(self).head, hp)
                    &&& stepped(old(self).tail, final(self).tail, tp)
                    &&& (hp is Some <==> !old(self).head_done)
                    &&& (tp is Some <==> !old(self).tail_done)
                    &&& final(self).head_done == (old(self).head_done || hp matches Some(
                        Poll::Ready(_),
                    ))
                    &&& final(self).tail_done == (old(self).tail_done || tp matches Some(
                        Poll::Ready(_),
                    ))
                },
            r == (if final(self).head_done && final(self).tail_done {
                Poll::Ready(())
            } else {
                Poll::Pending
            }),
    {
        let ghost h0 = self.head;
        let ghost t0 = self.tail;
        let ghost mut hp: Option<Poll<()>> = None;
        let ghost mut tp: Option<Poll<()>> = None;
        if !self.head_done {
            let p = self.head.poll();
            proof {
                hp = Some(p);
            }
            self.head_done = p.is_ready();
        }
        if !self.tail_done {
            let p = self.tail.poll();
            proof {
                tp = Some(p);
            }
            self.tail_done = p.is_ready();
        }
        proof {
            assert(stepped(h0, self.head, hp) && stepped(t0, self.tail, tp));
        }
        if self.head_done && self.tail_done {
            Poll::Ready(())
        } else {
            Poll::Pending
        }
    }
}

/// Two fallible computations run side by side: the first failure ends both.
#[derive(Debug)]
pub struct TryJoin<H, T> {
    /// The first computation.
    pub head: H,
    /// The second computation.
    pub tail: T,
    /// Whether the first has finished successfully.
    pub head_done: bool,
    /// Whether the second has finished successfully.
    pub tail_done: bool,
}

impl<E, H: Pollable<Output = Result<(), E>>, T: Pollable<Output = Result<(), E>>> TryJoin<H, T> {
    /// Polls each computation that has not finished yet, once, the first
    /// before the second: an error from either is passed on at once;
    /// ready with `Ok` when both have finished successfully.
    pub fn poll(&mut self) -> (r: Poll<Result<(), E>>)
        ensures
            exists|hp: Option<Poll<Result<(), E>>>, tp: Option<Poll<Result<(), E>>>|
                #![trigger stepped(old(self).head, final(self).head, hp), stepped(old(self).tail, final(self).tail, tp)]
                {
                    &&& stepped(old(self).head, final(self).head, hp)
                    &&& stepped(old(self).tail, final(self).tail, tp)
                    &&& (hp is Some <==> !old(self).head_done)
                    &&& (tp is Some <==> !old(self).tail_done && !(hp matches Some(
                        Poll::Ready(Err(_)),
                    )))
                    &&& final(self).head_done == (old(self).head_done || hp matches Some(
                        Poll::Ready(Ok(_)),
                    ))
                    &&& final(self).tail_done == (old(self).tail_done || tp matches Some(
                        Poll::Ready(Ok(_)),
                    ))
                    &&& r == try_join_answer(hp, tp, final(self).head_done && final(self).tail_done)
                },
    {
        let ghost h0 = self.head;
        let ghost t0 = self.tail;
        let ghost mut hp: Option<Poll<Result<(), E>>> = None;
        let ghost mut tp: Option<Poll<Result<(), E>>> = None;
        if !self.head_done {
            let p = self.head.poll();
            proof {
                hp = Some(p);
            }
            match try_join_step(p) {
                Err(e) => {
                    proof {
                        assert(stepped(h0, self.head, hp) && stepped(t0, self.tail, tp));
                    }
                    return Poll::Ready(Err(e));
                },
                Ok(done) => self.head_done = done,
            }
        }
        if !self.tail_done {
            let p = self.tail.poll();
            proof {
                tp = Some(p);
            }
            match try_join_step(p) {
                Err(e) => {
                    proof {
                        assert(stepped(h0, self.head, hp) && stepped(t0, self.tail, tp));
                    }
                    return Poll::Ready(Err(e));
                },
                Ok(done) => self.tail_done = done,
            }
        }
        proof {
            assert(stepped(h0, self.head, hp) && stepped(t0, self.tail, tp));
        }
        if self.head_done && self.tail_done {
            Poll::Ready(Ok(()))
        } else {
            Poll::Pending
        }
    }
}

/// What a try-join answers after its polls (`None` for a computation it
/// did not poll): the error of the first computation, else that of the
/// second, else `Ok` once both have finished, else pending.
pub open spec fn try_join_answer<E>(
    hp: Option<Poll<Result<(), E>>>,
    tp: Option<Poll<Result<(), E>>>,
    both_done: bool,
) -> Poll<Result<(), E>> {
    if let Some(Poll::Ready(Err(e))) = hp {
        Poll::Ready(Err(e))
    } else if let Some(Poll::Ready(Err(e))) = tp {
        Poll::Ready(Err(e))
    } else if both_done {
        Poll::Ready(Ok(()))
    } else {
        Poll::Pending
    }
}

/// What one poll of a fallible computation means to a try-join: its
/// error, which ends the join at once, or whether it has finished.
pub fn try_join_step<E>(polled: Poll<Result<(), E>>) -> (r: Result<bool, E>)
    ensures
        polled matches Poll::Ready(Err(e)) ==> r == Err::<bool, E>(e),
        polled matches Poll::Ready(Ok(_)) ==> r == Ok::<bool, E>(true),
        polled is Pending ==> r == Ok::<bool, E>(false),
{
    match polled {
        Poll::Ready(Err(e)) => Err(e),
        Poll::Ready(Ok(_)) => Ok(true),
        Poll::Pending => Ok(false),
    }
}

/// Two computations run side by side, their results collected.
#[derive(Debug)]
pub struct JoinAll<H: Pollable, T: Pollable> {
    /// The first computation.
    pub head: H,
    /// The second computation.
    pub tail: T,
    /// The result of the first, once it has finished.
    pub head_res: Option<H::Output>,
    /// The result of the second, once it has finished.
    pub tail_res: Option<T::Output>,
}

impl<H: Pollable, T: Pollable> JoinAll<H, T> {
    /// Runs `head` and `tail` side by side.
    pub fn new(head: H, tail: T) -> (r: Self)
        ensures
            r.head == head,
            r.tail == tail,
            r.head_res is None,
            r.tail_res is None,
    {
        JoinAll { head, tail, head_res: None, tail_res: None }
    }

    /// Polls each computation whose result is still missing, once; ready
    /// with both results, taken out, when both are there.
    pub fn poll(&mut self) -> (r: Poll<(H::Output, T::Output)>)
        ensures
            exists|hp: Option<Poll<H::Output>>, tp: Option<Poll<T::Output>>|
                #![trigger stepped(old(self).head, final(self).head, hp), stepped(old(self).tail, final(self).tail, tp)]
                {
                    &&& stepped(old(self).head, final(self).head, hp)
                    &&& stepped(old(self).tail, final(self).tail, tp)
                    &&& (hp is Some <==> old(self).head_res is None)
                    &&& (tp is Some <==> old(self).tail_res is None)
                    &&& collected(old(self).head_res, hp) is Some && collected(old(self).tail_res, tp) is Some
                        ==> r == Poll::Ready(
                        (collected(old(self).head_res, hp)->Some_0, collected(old(self).tail_res, tp)->Some_0),
                    ) && final(self).head_res is None && final(self).tail_res is None
                    &&& !(collected(old(self).head_res, hp) is Some && collected(old(self).tail_res, tp) is Some)
                        ==> r == Poll::<(H::Output, T::Output)>::Pending && final(self).head_res == collected(
                        old(self).head_res,
                        hp,
                    ) && final(self).tail_res == collected(old(self).tail_res, tp)
                },
    {
        let ghost h0 = self.head;
        let ghost t0 = self.tail;
        let ghost mut hp: Option<Poll<H::Output>> = None;
        let ghost mut tp: Option<Poll<T::Output>> = None;
        if self.head_res.is_none() {
            let p = self.head.poll();
            proof {
                hp = Some(p);
            }
            if let Poll::Ready(out) = p {
                self.head_res = Some(out);
            }
        }
        if self.tail_res.is_none() {
            let p = self.tail.poll();
            proof {
                tp = Some(p);
            }
            if let Poll::Ready(out) = p {
                self.tail_res = Some(out);
            }
        }
        let r = if self.head_res.is_some() && self.tail_res.is_some() {
            let h = self.head_res.take();
            let t = self.tail_res.take();
            match (h, t) {
                (Some(h), Some(t)) => Poll::Ready((h, t)),
                _ => Poll::Pending,
            }
        } else {
            Poll::Pending
        };
        proof {
            assert(stepped(h0, self.head, hp) && stepped(t0, self.tail, tp));
        }
        r
    }
}

/// The result a join-all holds for a computation after polling it: the one
/// it held already, or the one the poll gave, if any.
pub open spec fn collected<O>(held: Option<O>, p: Option<Poll<O>>) -> Option<O> {
    if held is Some {
        held
    } else if let Some(Poll::Ready(v)) = p {
        Some(v)
    } else {
        None
    }
}

/// The result of one of two computations.
#[derive(Debug)]
pub enum Either<A, B> {
    /// The first computation finished first.
    Left(A),
    /// The second computation finished first.
    Right(B),
}

/// Two computations raced: the first to finish gives the result.
#[derive(Debug)]
pub struct Select<H, T> {
    /// The first computation.
    pub head: H,
    /// The second computation.
    pub tail: T,
}

impl<H, T> Select<H, T> {
    /// Races `head` against `tail`.
    pub fn new(head: H, tail: T) -> (r: Self)
        ensures
            r.head == head,
            r.tail == tail,
    {
        Select { head, tail }
    }
}

impl<H: Pollable, T: Pollable> Select<H, T> {
    /// Polls the first computation, and the second only if the first has
    /// not finished: ready with the result of whichever finished.
    pub fn poll(&mut self) -> (r: Poll<Either<H::Output, T::Output>>)
        ensures
            exists|hp: Option<Poll<H::Output>>, tp: Option<Poll<T::Output>>|
                #![trigger stepped(old(self).head, final(self).head, hp), stepped(old(self).tail, final(self).tail, tp)]
                {
                    &&& stepped(old(self).head, final(self).head, hp)
                    &&& stepped(old(self).tail, final(self).tail, tp)
                    &&& hp is Some
                    &&& (tp is Some <==> hp->Some_0 is Pending)
                    &&& r == select_answer(hp->Some_0, tp)
                },
    {
        let ghost h0 = self.head;
        let ghost t0 = self.tail;
        let head = self.head.poll();
        let ghost hp = Some(head);
        if head.is_ready() {
            proof {
                assert(stepped(h0, self.head, hp) && stepped(t0, self.tail, None));
            }
            return select_outcome(head, None);
        }
        let tail = self.tail.poll();
        proof {
            assert(stepped(h0, self.head, hp) && stepped(t0, self.tail, Some(tail)));
        }
        select_outcome(head, Some(tail))
    }
}

/// What a select answers given the poll of the first computation and, if
/// the first had not finished, the poll of the second: the first result,
/// else the second, else pending.
pub open spec fn select_answer<A, B>(head: Poll<A>, tail: Option<Poll<B>>) -> Poll<Either<A, B>> {
    if let Poll::Ready(a) = head {
        Poll::Ready(Either::Left(a))
    } else if let Some(Poll::Ready(b)) = tail {
        Poll::Ready(Either::Right(b))
    } else {
        Poll::Pending
    }
}

/// What a select answers given the poll of the first computation and, if
/// the first had not finished, the poll of the second: the first result,
/// else the second, else pending.
pub fn select_outcome<A, B>(head: Poll<A>, tail: Option<Poll<B>>) -> (r: Poll<Either<A, B>>)
    ensures
        r == select_answer(head, tail),
{
    match head {
        Poll::Ready(a) => Poll::Ready(Either::Left(a)),
        Poll::Pending => match tail {
            Some(Poll::Ready(b)) => Poll::Ready(Either::Right(b)),
            _ => Poll::Pending,
        },
    }
}

/// An error from either computation ends a try-join with that error (the
/// first computation's when both failed); without an error the try-join is
/// ready with `Ok` exactly when both computations have finished, and
/// pending otherwise.
pub proof fn law_try_join_errors_end_it<E>(
    hp: Option<Poll<Result<(), E>>>,
    tp: Option<Poll<Result<(), E>>>,
    both_done: bool,
)
    ensures
        hp matches Some(Poll::Ready(Err(e))) ==> try_join_answer(hp, tp, both_done) == Poll::Ready(
            Err::<(), E>(e),
        ),
        !(hp matches Some(Poll::Ready(Err(_)))) ==> (tp matches Some(Poll::Ready(Err(e)))
            ==> try_join_answer(hp, tp, both_done) == Poll::Ready(Err::<(), E>(e))),
        !(hp matches Some(Poll::Ready(Err(_)))) && !(tp matches Some(Poll::Ready(Err(_))))
            ==> (try_join_answer(hp, tp, both_done) is Pending <==> !both_done),
        !(hp matches Some(Poll::Ready(Err(_)))) && !(tp matches Some(Poll::Ready(Err(_))))
            && both_done ==> try_join_answer(hp, tp, both_done) == Poll::Ready(Ok::<(), E>(())),
        try_join_answer(hp, tp, both_done) matches Poll::Ready(Err(e)) ==> hp == Some(
            Poll::Ready(Err::<(), E>(e)),
        ) || tp == Some(Poll::Ready(Err::<(), E>(e))),
{
}

/// A select answers with the first computation's result when it finished,
/// else with the second's when it finished, and is pending only when
/// neither finished.
pub proof fn law_select_first_finished<A, B>(head: Poll<A>, tail: Option<Poll<B>>)
    ensures
        head matches Poll::Ready(a) ==> select_answer(head, tail) == Poll::Ready(
            Either::<A, B>::Left(a),
        ),
        head is Pending ==> (tail matches Some(Poll::Ready(b)) ==> select_answer(head, tail)
            == Poll::Ready(Either::<A, B>::Right(b))),
        select_answer(head, tail) is Pending <==> head is Pending && !(tail matches Some(
            Poll::Ready(_),
        )),
{
}

/// A join-all keeps a result once it has one, takes the result of a poll
/// that finished, and has none otherwise.
pub proof fn law_collected_keeps_results<O>(held: Option<O>, p: Option<Poll<O>>)
    ensures
        held is Some ==> collected(held, p) == held,
        held is None ==> (p matches Some(Poll::Ready(v)) ==> collected(held, p) == Some(v)),
        held is None && !(p matches Some(Poll::Ready(_))) ==> collected(held, p) is None,
{
}

} // verus!
