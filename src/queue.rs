//! A fixed-capacity ring buffer over caller-provided storage.
use vstd::prelude::*;

verus! {

/// Position of the `i`-th element of a ring that starts at `start` and has
/// `max` slots (`start < max`, `i < max`).
pub open spec fn ring_slot(start: int, i: int, max: int) -> int {
    if start + i < max {
        start + i
    } else {
        start + i - max
    }
}

/// Single-producer/single-consumer ring of `max_count` slots.
///
/// `put_index == get_index` is ambiguous on its own; `last_operation_put`
/// tells a full ring (last operation was a put) from an empty one.
pub struct StaticQueue<T: Copy> {
    max_count: usize,
    buffer: Vec<T>,
    put_index: usize,
    get_index: usize,
    last_operation_put: bool,
}

impl<T: Copy> StaticQueue<T> {
    /// Well-formedness: indices inside the ring, ring inside the storage.
    pub closed spec fn inv(&self) -> bool {
        &&& 1 <= self.max_count <= self.buffer@.len()
        &&& self.put_index < self.max_count
        &&& self.get_index < self.max_count
    }

    /// The capacity of the ring.
    pub closed spec fn capacity(&self) -> nat {
        self.max_count as nat
    }

    /// Number of values held.
    closed spec fn len_spec(&self) -> nat {
        if self.put_index > self.get_index {
            (self.put_index - self.get_index) as nat
        } else if self.put_index < self.get_index {
            (self.put_index + self.max_count - self.get_index) as nat
        } else if self.last_operation_put {
            self.max_count as nat
        } else {
            0
        }
    }

    /// The values held, oldest first.
    pub closed spec fn view(&self) -> Seq<T> {
        Seq::new(
            self.len_spec(),
            |i: int|
                self.buffer@[ring_slot(self.get_index as int, i, self.max_count as int)],
        )
    }

    /// Makes an empty queue of `size` slots that uses `buffer` as storage.
    pub fn new(size: usize, buffer: Vec<T>) -> (r: Self)
        requires
            1 <= size <= buffer@.len(),
        ensures
            r.inv(),
            r.view() == Seq::<T>::empty(),
            r.capacity() == size,
    {
        let r = StaticQueue {
            max_count: size,
            buffer,
            put_index: 0,
            get_index: 0,
            last_operation_put: false,
        };
        assert(r.view() =~= Seq::<T>::empty());
        r
    }

    /// True when the queue holds `capacity` values.
    pub fn is_full(&self) -> (r: bool)
        requires
            self.inv(),
        ensures
            r == (self.view().len() == self.capacity()),
    {
        (self.get_index == self.put_index) && self.last_operation_put
    }

    /// True when the queue holds no value.
    pub fn is_empty(&self) -> (r: bool)
        requires
            self.inv(),
        ensures
            r == (self.view().len() == 0),
    {
        (self.get_index == self.put_index) && !self.last_operation_put
    }

    /// Appends `data`; fails, changing nothing, when the queue is full.
    pub fn enqueue(&mut self, data: &T) -> (r: bool)
        requires
            old(self).inv(),
        ensures
            final(self).inv(),
            final(self).capacity() == old(self).capacity(),
            r == (old(self).view().len() < old(self).capacity()),
            r ==> final(self).view() == old(self).view().push(*data),
            !r ==> final(self).view() == old(self).view(),
    {
        if self.is_full() {
            return false;
        }
        let ghost pre = *self;
        let put = self.put_index;
        self.buffer.set(put, *data);
        self.put_index = if put + 1 == self.max_count {
            0
        } else {
            put + 1
        };
        self.last_operation_put = true;
        assert(self.len_spec() == pre.len_spec() + 1);
        assert(self.view() =~= pre.view().push(*data)) by {
            assert forall|i: int| 0 <= i < pre.len_spec() implies ring_slot(
                pre.get_index as int,
                i,
                pre.max_count as int,
            ) != put by {}
            assert(ring_slot(pre.get_index as int, pre.len_spec() as int, pre.max_count as int)
                == put);
        }
        true
    }

    /// Removes and returns the oldest value; `Err(())` when the queue is empty.
    pub fn dequeue(&mut self) -> (r: Result<T, ()>)
        requires
            old(self).inv(),
        ensures
            final(self).inv(),
            final(self).capacity() == old(self).capacity(),
            old(self).view().len() == 0 <==> r is Err,
            r is Err ==> final(self).view() == old(self).view(),
            r is Ok ==> r->Ok_0 == old(self).view()[0] && final(self).view()
                == old(self).view().drop_first(),
    {
        if self.is_empty() {
            return Err(());
        }
        let ghost pre = *self;
        let get = self.get_index;
        let data = self.buffer[get];
        self.get_index = if get + 1 == self.max_count {
            0
        } else {
            get + 1
        };
        self.last_operation_put = false;
        assert(self.len_spec() + 1 == pre.len_spec());
        assert(self.view() =~= pre.view().drop_first());
        Ok(data)
    }
}

/// Contents and dequeued values after running `ops` on a queue of
/// `capacity` that holds `q`: `Some(v)` enqueues `v` (dropped when full),
/// `None` dequeues (nothing when empty), as `enqueue` and `dequeue` state.
pub open spec fn run_ops<T>(q: Seq<T>, capacity: nat, ops: Seq<Option<T>>) -> (Seq<T>, Seq<T>)
    decreases ops.len(),
{
    if ops.len() == 0 {
        (q, Seq::empty())
    } else {
        let (c, out) = run_ops(q, capacity, ops.drop_last());
        match ops.last() {
            Some(v) => if c.len() < capacity {
                (c.push(v), out)
            } else {
                (c, out)
            },
            None => if c.len() > 0 {
                (c.drop_first(), out.push(c[0]))
            } else {
                (c, out)
            },
        }
    }
}

/// The values that `ops` enqueues, in order.
pub open spec fn enqueued<T>(ops: Seq<Option<T>>) -> Seq<T>
    decreases ops.len(),
{
    if ops.len() == 0 {
        Seq::empty()
    } else {
        match ops.last() {
            Some(v) => enqueued(ops.drop_last()).push(v),
            None => enqueued(ops.drop_last()),
        }
    }
}

/// On an empty queue, any interleaving of at most `capacity` enqueues with
/// dequeues hands the values out in the order they went in: what came out,
/// followed by what is still held, is exactly what was enqueued.
pub proof fn lemma_fifo_order<T>(capacity: nat, ops: Seq<Option<T>>)
    requires
        enqueued(ops).len() <= capacity,
    ensures
        run_ops(Seq::<T>::empty(), capacity, ops).1 + run_ops(Seq::<T>::empty(), capacity, ops).0
            == enqueued(ops),
    decreases ops.len(),
{
    if ops.len() > 0 {
        let prev = ops.drop_last();
        assert(enqueued(prev).len() <= enqueued(ops).len());
        lemma_fifo_order(capacity, prev);
        let (c, out) = run_ops(Seq::<T>::empty(), capacity, prev);
        assert(c.len() <= enqueued(prev).len()) by {
            assert((out + c).len() == enqueued(prev).len());
        }
        match ops.last() {
            Some(v) => {
                assert(out + c.push(v) =~= (out + c).push(v));
            },
            None => {
                if c.len() > 0 {
                    assert(out.push(c[0]) + c.drop_first() =~= out + c);
                }
            },
        }
    }
}

/// Starting empty, `n` enqueues with no dequeue between them all succeed
/// while `n <= capacity`; the next one fails exactly when `n == capacity`.
pub proof fn lemma_fill_until_full<T>(capacity: nat, ops: Seq<Option<T>>)
    requires
        forall|i: int| 0 <= i < ops.len() ==> #[trigger] ops[i] is Some,
        ops.len() <= capacity,
    ensures
        run_ops(Seq::<T>::empty(), capacity, ops).0.len() == ops.len(),
        (run_ops(Seq::<T>::empty(), capacity, ops).0.len() < capacity) <==> ops.len() < capacity,
    decreases ops.len(),
{
    if ops.len() > 0 {
        let prev = ops.drop_last();
        assert forall|i: int| 0 <= i < prev.len() implies #[trigger] prev[i] is Some by {
            assert(ops[i] is Some);
        }
        lemma_fill_until_full(capacity, prev);
        assert(ops[ops.len() - 1] is Some);
    }
}

} // verus!
