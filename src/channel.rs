use std::sync::Arc;
use vstd::prelude::*;
use vstd::rwlock::{RwLock, RwLockPredicate};

use crate::ring_buffer::RingBuffer;

verus! {

/// What the lock of a handle's store admits: a well-formed store with a fixed number of slots.
pub struct StoreInv {
    pub cap: usize,
}

impl<T> RwLockPredicate<RingBuffer<T>> for StoreInv {
    open spec fn inv(self, v: RingBuffer<T>) -> bool {
        v.wf() && v.capacity_spec() == self.cap
    }
}

/// Relies on `Arc::clone`: the result is another pointer to the same allocation.
#[verifier::external_body]
fn share<V>(a: &Arc<V>) -> (r: Arc<V>)
    ensures
        r == *a,
{
    Arc::clone(a)
}

/// A handle to a bounded store shared by all of its clones.
///
/// Each send or receive holds the store's lock for one insertion or removal, so the
/// operations of all handles and threads take effect one at a time, in some order.
/// A single lock round the whole store, rather than cursors advanced by compare-and-swap,
/// is a deliberate choice of simplicity over throughput: a slot can never be seen by a
/// receiver before its value is written, nor reused before its value is taken.
pub struct Channel<T> {
    buffer: Arc<RwLock<RingBuffer<T>, StoreInv>>,
}

impl<T> Channel<T> {
    /// The number of slots of the shared store.
    pub closed spec fn capacity(&self) -> nat {
        (*self.buffer).pred().cap as nat
    }

    /// Makes a new, empty store with `capacity` slots and the first handle to it.
    pub fn new(capacity: usize) -> (r: Self)
        ensures
            r.capacity() == capacity,
    {
        let store = RingBuffer::new(capacity);
        let lock = RwLock::new(store, Ghost(StoreInv { cap: capacity }));
        Channel { buffer: Arc::new(lock) }
    }

    /// Inserts `value` if the store has a free slot; otherwise hands it back unchanged.
    pub fn try_send(&self, value: T) -> (r: Result<(), T>)
        ensures
            r matches Err(v) ==> v == value,
            self.capacity() == 0 ==> r == Err::<(), T>(value),
    {
        let (mut store, handle) = self.buffer.acquire_write();
        let r = store.push(value);
        handle.release_write(store);
        r
    }

    /// Removes the oldest pending value of the store, if there is one.
    pub fn try_recv(&self) -> (r: Option<T>)
        ensures
            self.capacity() == 0 ==> r is None,
    {
        let (mut store, handle) = self.buffer.acquire_write();
        proof {
            store.lemma_occupancy_bounded();
        }
        let r = store.pop();
        handle.release_write(store);
        r
    }
}

impl<T> Clone for Channel<T> {
    /// Another handle to the same store: nothing is copied.
    fn clone(&self) -> (r: Self)
        ensures
            r == *self,
    {
        Channel { buffer: share(&self.buffer) }
    }
}

} // verus!
