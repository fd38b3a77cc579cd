//! The mathematical model of a bucket queue: a sequence of optional buckets,
//! each bucket a sequence of items, indexed by priority.
//!
//! A slot holds `None` if no bucket was ever created at that priority (or the
//! bucket was removed), and `Some(items)` otherwise.  A present-but-empty
//! bucket is distinct from an absent one, but both count as unoccupied.

use vstd::prelude::*;

use crate::bucket::Bucket;

verus! {

/// The model of a bucket array: each present bucket replaced by the
/// sequence of items it holds.
pub open spec fn contents_of<B: Bucket>(buckets: Seq<Option<B>>) -> Seq<Option<Seq<B::Item>>> {
    Seq::new(
        buckets.len(),
        |i: int|
            match buckets[i] {
                Some(b) => Some(b.contents()),
                None => None,
            },
    )
}

/// The slot at priority `p`: `None` when `p` is out of range or no bucket
/// is present there.
pub open spec fn slot_of<T>(v: Seq<Option<Seq<T>>>, p: int) -> Option<Seq<T>> {
    if 0 <= p < v.len() {
        v[p]
    } else {
        None
    }
}

/// What a possibly-absent bucket holds, as a possibly-absent sequence.
pub open spec fn opt_contents<B: Bucket>(o: Option<B>) -> Option<Seq<B::Item>> {
    match o {
        Some(b) => Some(b.contents()),
        None => None,
    }
}

/// Whether every bucket present in the array satisfies its own
/// well-formedness.  Trivial for plain containers; for nested bucket
/// queues this carries each inner queue's index consistency.
pub open spec fn all_buckets_inv<B: Bucket>(buckets: Seq<Option<B>>) -> bool {
    forall|p: int|
        0 <= p < buckets.len() ==> (match #[trigger] buckets[p] {
            Some(b) => b.bucket_inv(),
            None => true,
        })
}

/// Like `all_buckets_inv`, but with no demand on the bucket at `p`:
/// the state of an array while that one bucket is being replaced.
pub open spec fn all_buckets_inv_except<B: Bucket>(buckets: Seq<Option<B>>, p: int) -> bool {
    forall|q: int|
        0 <= q < buckets.len() && q != p ==> (match #[trigger] buckets[q] {
            Some(b) => b.bucket_inv(),
            None => true,
        })
}

/// How many items a possibly-absent sequence holds.
pub open spec fn opt_len<T>(o: Option<Seq<T>>) -> nat {
    match o {
        Some(s) => s.len(),
        None => 0,
    }
}

/// The items held at priority `p`, or the empty sequence if `p` is out of
/// range or the slot is absent.
pub open spec fn slot_items<T>(v: Seq<Option<Seq<T>>>, p: int) -> Seq<T> {
    if 0 <= p < v.len() {
        match v[p] {
            Some(items) => items,
            None => Seq::empty(),
        }
    } else {
        Seq::empty()
    }
}

/// Whether at least one item is stored at priority `p`.
pub open spec fn occupied<T>(v: Seq<Option<Seq<T>>>, p: int) -> bool {
    slot_items(v, p).len() > 0
}

/// The total number of items across all buckets.
pub open spec fn total_items<T>(v: Seq<Option<Seq<T>>>) -> nat
    decreases v.len(),
{
    if v.len() == 0 {
        0
    } else {
        total_items(v.drop_last()) + slot_items(v, v.len() - 1).len()
    }
}

/// Whether `m` is the minimum occupied priority: `m` itself is occupied and
/// every smaller priority is not.
pub open spec fn is_min_priority<T>(v: Seq<Option<Seq<T>>>, m: int) -> bool {
    occupied(v, m) && forall|p: int| p < m ==> !occupied(v, p)
}

/// Whether `m` is the maximum occupied priority.
pub open spec fn is_max_priority<T>(v: Seq<Option<Seq<T>>>, m: int) -> bool {
    occupied(v, m) && forall|p: int| p > m ==> !occupied(v, p)
}

/// Whether `m` correctly reports the minimum occupied priority: `None` when
/// nothing is occupied, and the least occupied priority otherwise.
pub open spec fn min_matches<T>(v: Seq<Option<Seq<T>>>, m: Option<usize>) -> bool {
    match m {
        None => forall|p: int| !occupied(v, p),
        Some(m) => is_min_priority(v, m as int),
    }
}

/// Whether `m` correctly reports the maximum occupied priority.
pub open spec fn max_matches<T>(v: Seq<Option<Seq<T>>>, m: Option<usize>) -> bool {
    match m {
        None => forall|p: int| !occupied(v, p),
        Some(m) => is_max_priority(v, m as int),
    }
}

/// Whether a count and a min/max pair are a faithful summary of `v`.  This is
/// the invariant the index maintains for the bucket array.
pub open spec fn index_consistent<T>(
    len: nat,
    min: Option<usize>,
    max: Option<usize>,
    v: Seq<Option<Seq<T>>>,
) -> bool {
    &&& len == total_items(v)
    &&& min_matches(v, min)
    &&& max_matches(v, max)
}

/// `v` padded with absent slots until priority `n - 1` is a valid index.
/// Growing never discards or changes an existing slot.
pub open spec fn grown<T>(v: Seq<Option<Seq<T>>>, n: int) -> Seq<Option<Seq<T>>> {
    if n <= v.len() {
        v
    } else {
        v + Seq::new((n - v.len()) as nat, |i: int| None::<Seq<T>>)
    }
}

/// The minimum of a possibly-absent bound and a newly seen priority.
pub open spec fn min_with(m: Option<usize>, p: usize) -> usize {
    match m {
        Some(m) => if m < p {
            m
        } else {
            p
        },
        None => p,
    }
}

/// The maximum of a possibly-absent bound and a newly seen priority.
pub open spec fn max_with(m: Option<usize>, p: usize) -> usize {
    match m {
        Some(m) => if m > p {
            m
        } else {
            p
        },
        None => p,
    }
}

/// All items in the queue, one priority after another in increasing
/// order.  This is what a bucket queue holds when it serves as a single
/// bucket of an outer queue.
pub open spec fn flat_items<T>(v: Seq<Option<Seq<T>>>) -> Seq<T>
    decreases v.len(),
{
    if v.len() == 0 {
        Seq::empty()
    } else {
        flat_items(v.drop_last()) + slot_items(v, v.len() - 1)
    }
}

/// Flattening preserves the item count.
pub proof fn lemma_flat_items_len<T>(v: Seq<Option<Seq<T>>>)
    ensures
        flat_items(v).len() == total_items(v),
    decreases v.len(),
{
    if v.len() > 0 {
        lemma_flat_items_len(v.drop_last());
    }
}

/// Replacing one bucket and then taking the model is the same as taking
/// the model and replacing one slot.
pub proof fn lemma_contents_of_update<B: Bucket>(s: Seq<Option<B>>, p: int, o: Option<B>)
    requires
        0 <= p < s.len(),
    ensures
        contents_of(s.update(p, o)) == contents_of(s).update(p, opt_contents(o)),
{
    assert(contents_of(s.update(p, o)) =~= contents_of(s).update(p, opt_contents(o)));
}

/// Total item count is unchanged by appending an absent slot.
pub proof fn lemma_total_items_push_none<T>(v: Seq<Option<Seq<T>>>)
    ensures
        total_items(v.push(None)) == total_items(v),
{
    let v2 = v.push(None);
    assert(v2.drop_last() =~= v);
    assert(slot_items(v2, v2.len() - 1).len() == 0);
}

/// Total item count after changing one slot: the old slot's items leave and
/// the new slot's items arrive.
pub proof fn lemma_total_items_update<T>(v: Seq<Option<Seq<T>>>, p: int, s: Option<Seq<T>>)
    requires
        0 <= p < v.len(),
    ensures
        total_items(v.update(p, s)) + slot_items(v, p).len() == total_items(v) + slot_items(
            v.update(p, s),
            p,
        ).len(),
    decreases v.len(),
{
    let v2 = v.update(p, s);
    if p == v.len() - 1 {
        assert(v2.drop_last() =~= v.drop_last());
    } else {
        assert(v2.drop_last() =~= v.drop_last().update(p, s));
        lemma_total_items_update(v.drop_last(), p, s);
        assert(slot_items(v.drop_last(), p) == slot_items(v, p));
        assert(slot_items(v2.drop_last(), p) == slot_items(v2, p));
        assert(slot_items(v2, v2.len() - 1) == slot_items(v, v.len() - 1));
    }
}

/// A queue with no items has no occupied priority, and conversely.
pub proof fn lemma_total_items_zero<T>(v: Seq<Option<Seq<T>>>)
    ensures
        (total_items(v) == 0) <==> (forall|p: int| !occupied(v, p)),
    decreases v.len(),
{
    if v.len() == 0 {
    } else {
        lemma_total_items_zero(v.drop_last());
        if total_items(v) == 0 {
            assert forall|p: int| !occupied(v, p) by {
                if 0 <= p < v.len() - 1 {
                    assert(slot_items(v.drop_last(), p) == slot_items(v, p));
                    assert(!occupied(v.drop_last(), p));
                }
            }
        } else {
            if total_items(v.drop_last()) > 0 {
                let p = choose|p: int| occupied(v.drop_last(), p);
                assert(slot_items(v.drop_last(), p) == slot_items(v, p));
                assert(occupied(v, p));
            } else {
                assert(occupied(v, v.len() - 1));
            }
        }
    }
}

/// Each slot's items are counted in the total, so no slot holds more items
/// than the queue does overall.
pub proof fn lemma_slot_le_total<T>(v: Seq<Option<Seq<T>>>, p: int)
    ensures
        slot_items(v, p).len() <= total_items(v),
    decreases v.len(),
{
    if v.len() == 0 {
    } else if p == v.len() - 1 {
    } else if 0 <= p < v.len() - 1 {
        lemma_slot_le_total(v.drop_last(), p);
        assert(slot_items(v.drop_last(), p) == slot_items(v, p));
    }
}

/// The total item count only depends on how many items each slot holds.
pub proof fn lemma_total_items_len_pointwise<T>(v1: Seq<Option<Seq<T>>>, v2: Seq<Option<Seq<T>>>)
    requires
        v1.len() == v2.len(),
        forall|q: int| slot_items(v1, q).len() == slot_items(v2, q).len(),
    ensures
        total_items(v1) == total_items(v2),
    decreases v1.len(),
{
    if v1.len() > 0 {
        assert forall|q: int| slot_items(v1.drop_last(), q).len() == slot_items(
            v2.drop_last(),
            q,
        ).len() by {
            if 0 <= q < v1.len() - 1 {
                assert(slot_items(v1.drop_last(), q) == slot_items(v1, q));
                assert(slot_items(v2.drop_last(), q) == slot_items(v2, q));
            }
        }
        lemma_total_items_len_pointwise(v1.drop_last(), v2.drop_last());
        assert(slot_items(v1, v1.len() - 1).len() == slot_items(v2, v2.len() - 1).len());
    }
}

/// Whether a priority is the minimum only depends on which priorities are
/// occupied, not on what the buckets hold.
pub proof fn lemma_min_matches_occ<T>(
    v1: Seq<Option<Seq<T>>>,
    v2: Seq<Option<Seq<T>>>,
    m: Option<usize>,
)
    requires
        forall|p: int| occupied(v1, p) == occupied(v2, p),
        min_matches(v1, m),
    ensures
        min_matches(v2, m),
{
}

/// The counterpart of `lemma_min_matches_occ` for the maximum.
pub proof fn lemma_max_matches_occ<T>(
    v1: Seq<Option<Seq<T>>>,
    v2: Seq<Option<Seq<T>>>,
    m: Option<usize>,
)
    requires
        forall|p: int| occupied(v1, p) == occupied(v2, p),
        max_matches(v1, m),
    ensures
        max_matches(v2, m),
{
}

/// Growing the array neither adds items nor changes any slot's contents.
pub proof fn lemma_grown_properties<T>(v: Seq<Option<Seq<T>>>, n: int)
    ensures
        grown(v, n).len() == if n <= v.len() {
            v.len() as int
        } else {
            n
        },
        total_items(grown(v, n)) == total_items(v),
        forall|p: int| slot_items(grown(v, n), p) == slot_items(v, p),
        forall|p: int| 0 <= p < v.len() ==> grown(v, n)[p] == v[p],
        forall|p: int| v.len() <= p < grown(v, n).len() ==> grown(v, n)[p] is None,
    decreases n - v.len(),
{
    if n <= v.len() {
        assert(grown(v, n) =~= v);
    } else {
        let v2 = v.push(None);
        lemma_total_items_push_none(v);
        assert(grown(v, n) =~= grown(v2, n));
        lemma_grown_properties(v2, n);
        assert forall|p: int| slot_items(grown(v, n), p) == slot_items(v, p) by {
            assert(slot_items(grown(v2, n), p) == slot_items(v2, p));
            if 0 <= p < v.len() {
                assert(v2[p] == v[p]);
            }
        }
    }
}

/// After `n >= 1` items arrive at priority `p` (with every other slot
/// unchanged, though the array may have grown), the count rises by `n` and
/// the new min/max are the old bounds tightened by `p`.
pub proof fn lemma_consistent_after_add<T>(
    len: nat,
    mn: Option<usize>,
    mx: Option<usize>,
    v1: Seq<Option<Seq<T>>>,
    v2: Seq<Option<Seq<T>>>,
    p: usize,
    n: nat,
)
    requires
        index_consistent(len, mn, mx, v1),
        v2.len() >= v1.len(),
        p < v2.len(),
        forall|q: int| q != p ==> slot_items(v2, q) == slot_items(v1, q),
        slot_items(v2, p as int).len() == slot_items(v1, p as int).len() + n,
        n >= 1,
    ensures
        index_consistent(len + n, Some(min_with(mn, p)), Some(max_with(mx, p)), v2),
{
    let w = grown(v1, v2.len() as int);
    lemma_grown_properties(v1, v2.len() as int);
    let w2 = w.update(p as int, Some(slot_items(v2, p as int)));
    lemma_total_items_update(w, p as int, Some(slot_items(v2, p as int)));
    assert forall|q: int| slot_items(w2, q).len() == slot_items(v2, q).len() by {
        if q != p {
            assert(slot_items(w2, q) == slot_items(w, q));
        }
    }
    lemma_total_items_len_pointwise(w2, v2);
    let m2 = min_with(mn, p);
    assert(occupied(v2, m2 as int)) by {
        match mn {
            Some(m) => {
                if m < p {
                    assert(slot_items(v2, m as int) == slot_items(v1, m as int));
                }
            },
            None => {},
        }
    }
    assert forall|q: int| q < m2 implies !occupied(v2, q) by {
        assert(!occupied(v1, q));
        assert(slot_items(v2, q) == slot_items(v1, q));
    }
    let x2 = max_with(mx, p);
    assert(occupied(v2, x2 as int)) by {
        match mx {
            Some(m) => {
                if m > p {
                    assert(slot_items(v2, m as int) == slot_items(v1, m as int));
                }
            },
            None => {},
        }
    }
    assert forall|q: int| q > x2 implies !occupied(v2, q) by {
        assert(!occupied(v1, q));
        assert(slot_items(v2, q) == slot_items(v1, q));
    }
}

} // verus!
