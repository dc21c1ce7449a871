use vstd::prelude::*;

verus! {

/// What an insertion attempt does to a store that holds `q` and has room for `cap` values:
/// the new contents, and the value handed back when there is no room.
pub open spec fn insert_outcome<T>(q: Seq<T>, cap: nat, v: T) -> (Seq<T>, Result<(), T>) {
    if q.len() < cap {
        (q.push(v), Ok(()))
    } else {
        (q, Err(v))
    }
}

/// What a removal attempt does to a store that holds `q`: the oldest value leaves first.
pub open spec fn remove_outcome<T>(q: Seq<T>) -> (Seq<T>, Option<T>) {
    if q.len() > 0 {
        (q.drop_first(), Some(q[0]))
    } else {
        (q, None)
    }
}

/// Reduces a slot position `x` below `2 * cap` to one below `cap`.
pub open spec fn wrap(x: int, cap: int) -> int {
    if x < cap {
        x
    } else {
        x - cap
    }
}

/// A fixed-size circular store of values.
///
/// The pending values occupy the `len` slots that start at the removal cursor `tail`,
/// wrapping round the end of `data`; the insertion cursor `head` is the slot just after them.
/// Every other slot is empty.
pub struct RingBuffer<T> {
    data: Vec<Option<T>>,
    head: usize,
    tail: usize,
    len: usize,
}

impl<T> RingBuffer<T> {
    /// The number of slots, fixed at construction.
    pub closed spec fn capacity_spec(&self) -> nat {
        self.data@.len()
    }

    /// Distance from the removal cursor forward to slot `k`.
    closed spec fn offset(&self, k: int) -> int {
        if k >= self.tail {
            k - self.tail
        } else {
            k + self.data@.len() - self.tail
        }
    }

    /// Both cursors lie inside the slots, the insertion cursor just past the pending run, and a
    /// slot holds a value exactly when it belongs to that run.
    pub closed spec fn wf(&self) -> bool {
        let cap = self.data@.len() as int;
        &&& self.len <= cap
        &&& if cap == 0 { self.tail == 0 } else { self.tail < cap }
        &&& self.head == wrap(self.tail + self.len, cap)
        &&& forall|k: int|
            0 <= k < cap ==> (#[trigger] self.data@[k] is Some <==> self.offset(k) < self.len)
    }

    /// The pending values, oldest first.
    pub closed spec fn view(&self) -> Seq<T> {
        Seq::new(
            self.len as nat,
            |i: int| self.data@[wrap(self.tail + i, self.data@.len() as int)]->Some_0,
        )
    }

    /// A well-formed store never holds more values than it has slots.
    pub proof fn lemma_occupancy_bounded(&self)
        requires
            self.wf(),
        ensures
            self@.len() <= self.capacity_spec(),
    {
    }

    /// Makes an empty store with `capacity` slots.
    pub fn new(capacity: usize) -> (r: Self)
        ensures
            r.wf(),
            r@ == Seq::<T>::empty(),
            r.capacity_spec() == capacity,
    {
        let mut data: Vec<Option<T>> = Vec::with_capacity(capacity);
        let mut i: usize = 0;
        while i < capacity
            invariant
                i <= capacity,
                data@.len() == i,
                forall|k: int| 0 <= k < i ==> #[trigger] data@[k] is None,
            decreases capacity - i,
        {
            data.push(None);
            i = i + 1;
        }
        let r = RingBuffer { data, head: 0, tail: 0, len: 0 };
        assert(r@ =~= Seq::<T>::empty());
        r
    }

    /// The number of slots.
    pub fn capacity(&self) -> (r: usize)
        ensures
            r == self.capacity_spec(),
    {
        self.data.len()
    }

    /// Stores `value` after the pending values if a slot is free, else hands it back.
    pub fn push(&mut self, value: T) -> (r: Result<(), T>)
        requires
            old(self).wf(),
        ensures
            final(self).wf(),
            final(self).capacity_spec() == old(self).capacity_spec(),
            (final(self)@, r) == insert_outcome(old(self)@, old(self).capacity_spec(), value),
    {
        let cap = self.data.len();
        if self.len == cap {
            return Err(value);
        }
        let slot = self.head;
        self.data.set(slot, Some(value));
        self.head = if slot + 1 == cap {
            0
        } else {
            slot + 1
        };
        self.len = self.len + 1;
        proof {
            let q = old(self)@.push(value);
            assert(self.offset(slot as int) == old(self).len);
            assert forall|k: int| 0 <= k < cap implies (#[trigger] self.data@[k] is Some
                <==> self.offset(k) < self.len) by {
                if k != slot {
                    assert(old(self).data@[k] == self.data@[k]);
                }
            }
            assert forall|i: int| 0 <= i < self.len implies #[trigger] self@[i] == q[i] by {
                if i < old(self).len {
                    let k = wrap(self.tail + i, cap as int);
                    assert(self.offset(k) == i);
                    assert(k != slot);
                }
            }
            assert(self@ =~= q);
        }
        Ok(())
    }

    /// Takes the oldest pending value out of its slot, if there is one.
    pub fn pop(&mut self) -> (r: Option<T>)
        requires
            old(self).wf(),
        ensures
            final(self).wf(),
            final(self).capacity_spec() == old(self).capacity_spec(),
            (final(self)@, r) == remove_outcome(old(self)@),
    {
        if self.len == 0 {
            return None;
        }
        let cap = self.data.len();
        let slot = self.tail;
        let mut taken: Option<T> = None;
        std::mem::swap(&mut taken, &mut self.data[slot]);
        self.tail = if slot + 1 == cap {
            0
        } else {
            slot + 1
        };
        self.len = self.len - 1;
        proof {
            let q = old(self)@.drop_first();
            assert(old(self).offset(slot as int) == 0);
            assert(taken == Some(old(self)@[0]));
            assert forall|k: int| 0 <= k < cap implies (#[trigger] self.data@[k] is Some
                <==> self.offset(k) < self.len) by {
                if k != slot {
                    assert(old(self).data@[k] == self.data@[k]);
                    assert(self.offset(k) == old(self).offset(k) - 1);
                }
            }
            assert forall|i: int| 0 <= i < self.len implies #[trigger] self@[i] == q[i] by {
                let k = wrap(self.tail + i, cap as int);
                assert(k == wrap(old(self).tail + i + 1, cap as int));
                assert(old(self).offset(k) == i + 1);
                assert(k != slot);
            }
            assert(self@ =~= q);
        }
        taken
    }
}

} // verus!
