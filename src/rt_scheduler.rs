use vstd::prelude::*;
use crate::atomics::AtomicQueue;

verus! {

/// Number of slots of a scheduler's queue; one slot always stays unused.
pub const MAX_TASKS: usize = 1024;

/// A task: a callable that takes no arguments and returns nothing, run
/// once.
pub struct RtTask<F> {
    pub func: F,
}

/// Fixed-capacity cooperative scheduler: tasks wait in a ring buffer of
/// `MAX_TASKS` slots allocated once, and `run` executes them in the order
/// in which they were scheduled.
pub struct RtScheduler<F> {
    queue: AtomicQueue<RtTask<F>>,
}

impl<F> RtScheduler<F> {
    pub closed spec fn wf(&self) -> bool {
        self.queue.wf() && self.queue.capacity() == MAX_TASKS
    }

    /// The callables waiting to run, oldest first.
    pub closed spec fn view(&self) -> Seq<F> {
        self.queue@.map_values(|t: RtTask<F>| t.func)
    }

    pub fn new() -> (s: Self)
        ensures
            s.wf(),
            s@ == Seq::<F>::empty(),
    {
        let s = RtScheduler { queue: AtomicQueue::new(MAX_TASKS) };
        assert(s@ =~= Seq::<F>::empty());
        s
    }

    /// Queues `func` behind the tasks already waiting; returns `false` and
    /// changes nothing when `MAX_TASKS - 1` tasks are waiting.
    pub fn schedule(&mut self, func: F) -> (r: bool)
        requires
            old(self).wf(),
        ensures
            final(self).wf(),
            r == (old(self)@.len() + 1 < MAX_TASKS),
            r ==> final(self)@ == old(self)@.push(func),
            !r ==> final(self)@ == old(self)@,
    {
        let ghost before = self.queue@;
        let r = self.queue.push(RtTask { func });
        assert(r ==> self.queue@.map_values(|t: RtTask<F>| t.func) =~= before.map_values(
            |t: RtTask<F>| t.func,
        ).push(func));
        r
    }
}

impl<F: Fn()> RtScheduler<F> {
    /// Pops and calls the waiting tasks one at a time, oldest first, until
    /// the queue is empty; each task runs exactly once.
    pub fn run(&mut self)
        requires
            old(self).wf(),
            forall|i: int| 0 <= i < old(self)@.len() ==> (#[trigger] old(self)@[i]).requires(()),
        ensures
            final(self).wf(),
            final(self)@ == Seq::<F>::empty(),
            forall|i: int| 0 <= i < old(self)@.len() ==> (#[trigger] old(self)@[i]).ensures((), ()),
    {
        let ghost all = self@;
        let ghost done: int = 0;
        loop
            invariant
                self.wf(),
                0 <= done <= all.len(),
                self@ == all.subrange(done, all.len() as int),
                forall|i: int| 0 <= i < all.len() ==> (#[trigger] all[i]).requires(()),
                forall|i: int| 0 <= i < done ==> (#[trigger] all[i]).ensures((), ()),
            ensures
                self.wf(),
                self@ == Seq::<F>::empty(),
                forall|i: int| 0 <= i < all.len() ==> (#[trigger] all[i]).ensures((), ()),
            decreases all.len() - done,
        {
            let ghost before = self.queue@;
            match self.queue.pop() {
                Some(task) => {
                    proof {
                        let fs = before.map_values(|t: RtTask<F>| t.func);
                        assert(fs =~= all.subrange(done, all.len() as int));
                        assert(fs.len() > 0);
                        assert(fs[0] == all[done]);
                        assert(task.func == all[done]);
                        assert(self.queue@ == before.drop_first());
                        assert forall|i: int| 0 <= i < all.len() - done - 1 implies #[trigger] self.queue@[i].func
                            == all[done + 1 + i] by {
                            assert(self.queue@[i] == before[i + 1]);
                            assert(fs[i + 1] == all[done + 1 + i]);
                        }
                        assert(self.queue@.map_values(|t: RtTask<F>| t.func) =~= all.subrange(
                            done + 1,
                            all.len() as int,
                        ));
                    }
                    (task.func)();
                    proof {
                        done = done + 1;
                    }
                },
                None => {
                    proof {
                        assert(done == all.len());
                        assert(self@ =~= Seq::<F>::empty());
                    }
                    break;
                },
            }
        }
    }
}

} // verus!
