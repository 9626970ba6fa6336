use vstd::prelude::*;
use std::collections::VecDeque;

verus! {

/// What one poll of a suspendable computation reports.
#[derive(Clone, Copy, Debug, PartialEq, Eq, Structural)]
pub enum PollOutcome {
    /// The computation ran to completion.
    Ready,
    /// The computation is waiting to be woken.
    Pending,
}

/// `poll` was called on `t` and returned.
pub open spec fn polled<T, P: Fn(&T) -> PollOutcome>(poll: P, t: &T) -> bool {
    exists|o: PollOutcome| poll.ensures((t,), o)
}

/// Single-threaded cooperative executor: spawned tasks wait in a
/// first-in first-out queue, and `run` polls each of them exactly once.
///
/// The waker handed to a poll does nothing, so a task that reports
/// `Pending` is never woken: it is dropped like a completed one and never
/// polled again. Only computations that finish on their first poll make
/// progress.
pub struct Executor<T> {
    queue: VecDeque<T>,
}

impl<T> Executor<T> {
    /// The tasks waiting to be polled, oldest first.
    pub closed spec fn view(&self) -> Seq<T> {
        self.queue@
    }

    pub fn new() -> (e: Self)
        ensures
            e@ == Seq::<T>::empty(),
    {
        Executor { queue: VecDeque::new() }
    }

    /// Appends `task` at the back of the queue.
    pub fn spawn(&mut self, task: T)
        ensures
            final(self)@ == old(self)@.push(task),
    {
        self.queue.push_back(task);
    }

    /// Takes the oldest task out of the queue, for a caller that polls it
    /// itself; `None` when the queue is empty.
    pub fn next_task(&mut self) -> (r: Option<T>)
        ensures
            old(self)@.len() == 0 ==> r.is_none() && final(self)@ == old(self)@,
            old(self)@.len() > 0 ==> r == Some(old(self)@[0]) && final(self)@ == old(self)@.drop_first(),
    {
        self.queue.pop_front()
    }

    /// Takes the oldest task out of the queue and polls it once with
    /// `poll`; the task is then dropped whatever the poll reported. Returns
    /// what the poll reported, or `None` when the queue was empty.
    pub fn run_once<P: Fn(&T) -> PollOutcome>(&mut self, poll: &P) -> (r: Option<PollOutcome>)
        requires
            forall|t: &T| #[trigger] poll.requires((t,)),
        ensures
            old(self)@.len() == 0 ==> r.is_none() && final(self)@ == old(self)@,
            old(self)@.len() > 0 ==> r.is_some() && poll.ensures((&old(self)@[0],), r->Some_0)
                && final(self)@ == old(self)@.drop_first(),
    {
        match self.next_task() {
            Some(task) => {
                let outcome = poll(&task);
                Some(outcome)
            },
            None => None,
        }
    }

    /// Polls every waiting task once, oldest first, dropping each after
    /// its poll, until the queue is empty.
    pub fn run<P: Fn(&T) -> PollOutcome>(&mut self, poll: P)
        requires
            forall|t: &T| #[trigger] poll.requires((t,)),
        ensures
            final(self)@ == Seq::<T>::empty(),
            forall|i: int| 0 <= i < old(self)@.len() ==> #[trigger] polled(poll, &old(self)@[i]),
    {
        let ghost all = self@;
        let ghost done: int = 0;
        loop
            invariant
                forall|t: &T| #[trigger] poll.requires((t,)),
                0 <= done <= all.len(),
                self@ == all.subrange(done, all.len() as int),
                forall|i: int| 0 <= i < done ==> #[trigger] polled(poll, &all[i]),
            ensures
                self@ == Seq::<T>::empty(),
                forall|i: int| 0 <= i < all.len() ==> #[trigger] polled(poll, &all[i]),
            decreases all.len() - done,
        {
            match self.run_once(&poll) {
                Some(o) => {
                    proof {
                        assert(poll.ensures((&all[done],), o));
                        assert(polled(poll, &all[done]));
                        done = done + 1;
                        assert(self@ =~= all.subrange(done, all.len() as int));
                    }
                },
                None => {
                    proof {
                        assert(self@ =~= Seq::<T>::empty());
                    }
                    break;
                },
            }
        }
    }
}

} // verus!
