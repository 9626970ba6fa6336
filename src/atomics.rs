use vstd::prelude::*;

verus! {

/// Position of the `i`-th live element of a ring that starts at `head`
/// and has `size` slots.
pub open spec fn ring_index(head: int, i: int, size: int) -> int {
    if head + i < size {
        head + i
    } else {
        head + i - size
    }
}

/// Number of live elements between the two cursors of a ring of `size` slots.
pub open spec fn ring_len(head: int, tail: int, size: int) -> int {
    if head <= tail {
        tail - head
    } else {
        tail + size - head
    }
}

/// One step of a producer/consumer history on a ring buffer.
pub enum QueueOp<T> {
    Push(T),
    Pop,
}

/// The contents after `op` on contents `q` of a buffer with `capacity`
/// slots, as `push` and `pop` leave them.
pub open spec fn apply_op<T>(q: Seq<T>, capacity: nat, op: QueueOp<T>) -> Seq<T> {
    match op {
        QueueOp::Push(v) => if q.len() + 1 < capacity {
            q.push(v)
        } else {
            q
        },
        QueueOp::Pop => if q.len() == 0 {
            q
        } else {
            q.drop_first()
        },
    }
}

/// The contents after the history `ops`, starting from an empty buffer.
pub open spec fn contents_after<T>(capacity: nat, ops: Seq<QueueOp<T>>) -> Seq<T>
    decreases ops.len(),
{
    if ops.len() == 0 {
        Seq::empty()
    } else {
        apply_op(contents_after(capacity, ops.drop_last()), capacity, ops.last())
    }
}

/// The values that the pops of `ops` return, in order.
pub open spec fn popped_values<T>(capacity: nat, ops: Seq<QueueOp<T>>) -> Seq<T>
    decreases ops.len(),
{
    if ops.len() == 0 {
        Seq::empty()
    } else {
        let before = contents_after(capacity, ops.drop_last());
        let earlier = popped_values(capacity, ops.drop_last());
        match ops.last() {
            QueueOp::Pop => if before.len() > 0 {
                earlier.push(before[0])
            } else {
                earlier
            },
            QueueOp::Push(_) => earlier,
        }
    }
}

/// The values handed to the pushes of `ops`, in order.
pub open spec fn pushed_values<T>(ops: Seq<QueueOp<T>>) -> Seq<T>
    decreases ops.len(),
{
    if ops.len() == 0 {
        Seq::empty()
    } else {
        match ops.last() {
            QueueOp::Push(v) => pushed_values(ops.drop_last()).push(v),
            QueueOp::Pop => pushed_values(ops.drop_last()),
        }
    }
}

/// No push of `ops` meets a full buffer: at most `capacity - 1` elements
/// are outstanding at any time.
pub open spec fn within_capacity<T>(capacity: nat, ops: Seq<QueueOp<T>>) -> bool {
    forall|k: int|
        0 <= k < ops.len() && (#[trigger] ops[k]) is Push ==> contents_after(capacity, ops.take(k)).len()
            + 1 < capacity
}

/// First in, first out: in any history that never pushes onto a full
/// buffer, the values pushed are exactly the values popped followed by the
/// values still held, in the same order; none is lost or duplicated.
pub proof fn lemma_fifo_order<T>(capacity: nat, ops: Seq<QueueOp<T>>)
    requires
        within_capacity(capacity, ops),
    ensures
        pushed_values(ops) == popped_values(capacity, ops) + contents_after(capacity, ops),
    decreases ops.len(),
{
    if ops.len() > 0 {
        let pre = ops.drop_last();
        let k = ops.len() - 1;
        assert forall|j: int| 0 <= j < pre.len() && (#[trigger] pre[j]) is Push implies contents_after(
            capacity,
            pre.take(j),
        ).len() + 1 < capacity by {
            assert(pre.take(j) =~= ops.take(j));
            assert(ops[j] is Push);
        }
        lemma_fifo_order(capacity, pre);
        assert(ops.take(k) =~= pre);
        let before = contents_after(capacity, pre);
        let earlier = popped_values(capacity, pre);
        match ops.last() {
            QueueOp::Push(v) => {
                assert(ops[k] is Push);
                assert((earlier + before).push(v) =~= earlier + before.push(v));
            },
            QueueOp::Pop => {
                if before.len() > 0 {
                    assert(earlier.push(before[0]) + before.drop_first() =~= earlier + before);
                }
            },
        }
    }
}

/// Bounded first-in first-out ring buffer with `size` slots, one of which
/// always stays unused so that "empty" (`head == tail`) and "full"
/// (`tail + 1 == head`, modulo `size`) can be told apart; `size - 1`
/// elements fit at a time.
///
/// Every operation takes `&mut self`: exclusive access serialises the
/// producer and the consumer. A buffer shared between threads is put behind
/// a lock, trading throughput for operations that cannot race.
pub struct AtomicQueue<T> {
    buffer: Vec<Option<T>>,
    head: usize,
    tail: usize,
    size: usize,
}

impl<T> AtomicQueue<T> {
    /// The cursors lie inside the storage, and exactly the live slots hold
    /// an element.
    pub closed spec fn wf(&self) -> bool {
        &&& self.size >= 1
        &&& self.buffer@.len() == self.size
        &&& self.head < self.size
        &&& self.tail < self.size
        &&& forall|i: int|
            0 <= i < ring_len(self.head as int, self.tail as int, self.size as int) ==> (#[trigger] self.buffer@[ring_index(
                self.head as int,
                i,
                self.size as int,
            )]).is_some()
    }

    /// Number of slots; `capacity() - 1` elements fit at a time.
    pub closed spec fn capacity(&self) -> nat {
        self.size as nat
    }

    /// The elements held, oldest first.
    pub closed spec fn view(&self) -> Seq<T> {
        Seq::new(
            ring_len(self.head as int, self.tail as int, self.size as int) as nat,
            |i: int| self.buffer@[ring_index(self.head as int, i, self.size as int)]->Some_0,
        )
    }

    /// Allocates `size` empty slots.
    pub fn new(size: usize) -> (q: Self)
        requires
            size >= 1,
        ensures
            q.wf(),
            q.capacity() == size,
            q@ == Seq::<T>::empty(),
    {
        let mut buffer: Vec<Option<T>> = Vec::with_capacity(size);
        let mut i: usize = 0;
        while i < size
            invariant
                i <= size,
                buffer@.len() == i,
            decreases size - i,
        {
            buffer.push(None);
            i = i + 1;
        }
        let q = AtomicQueue { buffer, head: 0, tail: 0, size };
        assert(q@ =~= Seq::<T>::empty());
        q
    }

    /// Appends `value` at the back, unless `capacity() - 1` elements are
    /// already held: then it returns `false` and changes nothing.
    pub fn push(&mut self, value: T) -> (r: bool)
        requires
            old(self).wf(),
        ensures
            final(self).wf(),
            final(self).capacity() == old(self).capacity(),
            r == (old(self)@.len() + 1 < old(self).capacity()),
            r ==> final(self)@ == old(self)@.push(value),
            final(self)@ == apply_op(old(self)@, old(self).capacity(), QueueOp::Push(value)),
            !r ==> *final(self) == *old(self),
    {
        let tail = self.tail;
        let next_tail: usize = if tail + 1 == self.size {
            0
        } else {
            tail + 1
        };
        if next_tail == self.head {
            return false;
        }
        let ghost old_q = *self;
        self.buffer.set(tail, Some(value));
        self.tail = next_tail;
        proof {
            let n = ring_len(old_q.head as int, old_q.tail as int, old_q.size as int);
            assert(ring_len(self.head as int, self.tail as int, self.size as int) == n + 1);
            assert(ring_index(self.head as int, n, self.size as int) == tail);
            assert forall|i: int| 0 <= i < n implies ring_index(
                self.head as int,
                i,
                self.size as int,
            ) != tail by {}
            assert(self@ =~= old_q@.push(value));
        }
        true
    }

    /// Removes and returns the oldest element; on an empty buffer it
    /// returns `None` and changes nothing.
    pub fn pop(&mut self) -> (r: Option<T>)
        requires
            old(self).wf(),
        ensures
            final(self).wf(),
            final(self).capacity() == old(self).capacity(),
            old(self)@.len() == 0 ==> r.is_none() && *final(self) == *old(self),
            old(self)@.len() > 0 ==> r == Some(old(self)@[0]) && final(self)@ == old(self)@.drop_first(),
            final(self)@ == apply_op(old(self)@, old(self).capacity(), QueueOp::Pop),
    {
        let head = self.head;
        if head == self.tail {
            return None;
        }
        let ghost old_q = *self;
        assert(old_q.buffer@[ring_index(head as int, 0, old_q.size as int)].is_some());
        let value = self.buffer[head].take();
        self.head = if head + 1 == self.size {
            0
        } else {
            head + 1
        };
        proof {
            let n = ring_len(old_q.head as int, old_q.tail as int, old_q.size as int);
            assert(ring_len(self.head as int, self.tail as int, self.size as int) == n - 1);
            assert forall|i: int| 0 <= i < n - 1 implies ring_index(
                self.head as int,
                i,
                self.size as int,
            ) == ring_index(old_q.head as int, i + 1, old_q.size as int) && ring_index(
                self.head as int,
                i,
                self.size as int,
            ) != head by {}
            assert forall|i: int| 0 <= i < n - 1 implies (#[trigger] self.buffer@[ring_index(
                self.head as int,
                i,
                self.size as int,
            )]).is_some() by {
                assert(old_q.buffer@[ring_index(old_q.head as int, i + 1, old_q.size as int)].is_some());
            }
            assert(self@ =~= old_q@.drop_first());
        }
        value
    }
}

/// A single unsigned cell changed by load, store, fetch-and-add and
/// compare-and-swap. Exclusive access through `&mut self` makes each
/// operation indivisible; a counter shared between threads is put behind a
/// lock.
pub struct AtomicCounter {
    value: usize,
}

impl AtomicCounter {
    pub closed spec fn view(&self) -> usize {
        self.value
    }

    pub fn new(val: usize) -> (c: Self)
        ensures
            c@ == val,
    {
        AtomicCounter { value: val }
    }

    pub fn load(&self) -> (r: usize)
        ensures
            r == self@,
    {
        self.value
    }

    pub fn store(&mut self, val: usize)
        ensures
            final(self)@ == val,
    {
        self.value = val;
    }

    /// Adds `val`, wrapping around on overflow as an atomic integer does,
    /// and returns the value held before.
    pub fn fetch_add(&mut self, val: usize) -> (r: usize)
        ensures
            r == old(self)@,
            final(self)@ == (if old(self)@ + val <= usize::MAX {
                old(self)@ + val
            } else {
                old(self)@ + val - (usize::MAX + 1)
            }),
    {
        let prev = self.value;
        self.value = if val <= usize::MAX - prev {
            prev + val
        } else {
            val - (usize::MAX - prev) - 1
        };
        prev
    }

    /// Replaces the value by `new` if it equals `current`; returns the value
    /// seen before the attempt in either case.
    pub fn compare_and_swap(&mut self, current: usize, new: usize) -> (r: usize)
        ensures
            r == old(self)@,
            final(self)@ == (if old(self)@ == current {
                new
            } else {
                old(self)@
            }),
    {
        let prev = self.value;
        if prev == current {
            self.value = new;
        }
        prev
    }
}

} // verus!
