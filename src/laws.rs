use vstd::prelude::*;
use vstd::seq_lib::lemma_multiset_commutative;

use crate::ring_buffer::{insert_outcome, remove_outcome};

verus! {

/// One attempt on a store: insert a value, or remove the oldest one.
pub enum Attempt<T> {
    Insert(T),
    Remove,
}

/// Inserts `vs` one after another into a store that holds `q`: the final contents, and
/// whether every insertion was accepted.
pub open spec fn insert_all<T>(q: Seq<T>, cap: nat, vs: Seq<T>) -> (Seq<T>, bool)
    decreases vs.len(),
{
    if vs.len() == 0 {
        (q, true)
    } else {
        let (q1, all_ok) = insert_all(q, cap, vs.drop_last());
        let (q2, r) = insert_outcome(q1, cap, vs.last());
        (q2, all_ok && r is Ok)
    }
}

/// Runs `ops` one after another on a store that holds `q`: the final contents, the values
/// whose insertion was accepted, and the values removed, each in the order it happened.
pub open spec fn run<T>(q: Seq<T>, cap: nat, ops: Seq<Attempt<T>>) -> (Seq<T>, Seq<T>, Seq<T>)
    decreases ops.len(),
{
    if ops.len() == 0 {
        (q, Seq::empty(), Seq::empty())
    } else {
        let (q1, accepted, removed) = run(q, cap, ops.drop_last());
        match ops.last() {
            Attempt::Insert(v) => {
                let (q2, r) = insert_outcome(q1, cap, v);
                (q2, if r is Ok { accepted.push(v) } else { accepted }, removed)
            },
            Attempt::Remove => {
                let (q2, r) = remove_outcome(q1);
                (q2, accepted, if let Some(v) = r { removed.push(v) } else { removed })
            },
        }
    }
}

/// A value inserted into an empty store with at least one slot is accepted, and the next
/// removal gives it back and leaves the store empty.
pub proof fn lemma_round_trip<T>(cap: nat, v: T)
    requires
        cap >= 1,
    ensures
        insert_outcome(Seq::<T>::empty(), cap, v).1 is Ok,
        remove_outcome(insert_outcome(Seq::<T>::empty(), cap, v).0) == (
        Seq::<T>::empty(),
        Some(v),
        ),
{
    let q = insert_outcome(Seq::<T>::empty(), cap, v).0;
    assert(q.drop_first() =~= Seq::<T>::empty());
}

/// Filling an empty store with as many values as it has slots accepts each of them, in
/// order; the next insertion is refused, hands back its value and changes nothing.
pub proof fn lemma_overflow<T>(cap: nat, vs: Seq<T>, w: T)
    requires
        vs.len() == cap,
    ensures
        insert_all(Seq::<T>::empty(), cap, vs) == (vs, true),
        insert_outcome(vs, cap, w) == (vs, Err::<(), T>(w)),
{
    lemma_insert_all_within_capacity(cap, vs);
}

/// Inserting no more values than there are slots into an empty store accepts them all.
proof fn lemma_insert_all_within_capacity<T>(cap: nat, vs: Seq<T>)
    requires
        vs.len() <= cap,
    ensures
        insert_all(Seq::<T>::empty(), cap, vs) == (vs, true),
    decreases vs.len(),
{
    if vs.len() > 0 {
        lemma_insert_all_within_capacity(cap, vs.drop_last());
        assert(vs.drop_last().push(vs.last()) =~= vs);
    }
}

/// Removing from an empty store gives nothing and leaves it empty.
pub proof fn lemma_underflow<T>()
    ensures
        remove_outcome(Seq::<T>::empty()) == (Seq::<T>::empty(), None::<T>),
{
}

/// Whatever the order in which attempts reach a store, no value is lost or duplicated: the
/// values it held and those accepted are, in order, those removed followed by those
/// still held.
pub proof fn lemma_conservation<T>(q: Seq<T>, cap: nat, ops: Seq<Attempt<T>>)
    ensures
        ({
            let (held, accepted, removed) = run(q, cap, ops);
            &&& q + accepted == removed + held
            &&& q.to_multiset().add(accepted.to_multiset()) == removed.to_multiset().add(
                held.to_multiset(),
            )
        }),
    decreases ops.len(),
{
    let (held, accepted, removed) = run(q, cap, ops);
    if ops.len() > 0 {
        lemma_conservation(q, cap, ops.drop_last());
        let (q1, accepted1, removed1) = run(q, cap, ops.drop_last());
        match ops.last() {
            Attempt::Insert(v) => {
                if q1.len() < cap {
                    assert(q + accepted1.push(v) =~= (q + accepted1).push(v));
                    assert(removed1 + q1.push(v) =~= (removed1 + q1).push(v));
                }
            },
            Attempt::Remove => {
                if q1.len() > 0 {
                    assert(removed1.push(q1[0]) + q1.drop_first() =~= removed1 + q1);
                }
            },
        }
    }
    lemma_multiset_commutative(q, accepted);
    lemma_multiset_commutative(removed, held);
}

} // verus!
