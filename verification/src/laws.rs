//! The library's global laws, stated over the model and proved once.
//!
//! Each operation's contract pins down the queue's new model exactly;
//! these lemmas state the facts that span several operations: the
//! reported bounds are unique and vanish exactly on emptiness, each
//! addition raises the count by one and each removal lowers it by one,
//! and replacing a bucket out and back restores the queue.

use vstd::prelude::*;

use crate::model::flat_items;
use crate::model::grown;
use crate::model::lemma_flat_items_len;
use crate::model::lemma_grown_properties;
use crate::model::lemma_total_items_len_pointwise;
use crate::model::lemma_total_items_update;
use crate::model::lemma_total_items_zero;
use crate::model::max_matches;
use crate::model::min_matches;
use crate::model::occupied;
use crate::model::opt_len;
use crate::model::slot_items;
use crate::model::slot_of;
use crate::model::total_items;

verus! {

/// At most one value correctly reports the minimum occupied priority,
/// and at most one the maximum: whatever `min_priority()` returns is
/// the only answer the queue's state allows.
pub proof fn lemma_reported_bounds_unique<T>(
    v: Seq<Option<Seq<T>>>,
    m1: Option<usize>,
    m2: Option<usize>,
)
    requires
        min_matches(v, m1) && min_matches(v, m2) || max_matches(v, m1) && max_matches(v, m2),
    ensures
        m1 == m2,
{
}

/// The reported minimum and maximum are `None` exactly when the queue
/// holds no items, including after a full drain.
pub proof fn lemma_bounds_none_iff_empty<T>(
    v: Seq<Option<Seq<T>>>,
    mn: Option<usize>,
    mx: Option<usize>,
)
    requires
        min_matches(v, mn),
        max_matches(v, mx),
    ensures
        (mn is None) <==> (total_items(v) == 0),
        (mx is None) <==> (total_items(v) == 0),
{
    lemma_total_items_zero(v);
}

/// Adding one item at priority `p` raises the total count by exactly
/// one, whatever the other priorities hold.
pub proof fn lemma_one_added<T>(v: Seq<Option<Seq<T>>>, p: usize, item: T)
    ensures
        total_items(grown(v, p + 1).update(p as int, Some(slot_items(v, p as int).push(item))))
            == total_items(v) + 1,
{
    let vg = grown(v, p + 1);
    lemma_grown_properties(v, p + 1);
    lemma_total_items_update(vg, p as int, Some(slot_items(v, p as int).push(item)));
}

/// Removing one item at priority `p` (wherever in the bucket the
/// discipline takes it from) lowers the total count by exactly one.
pub proof fn lemma_one_removed<T>(v: Seq<Option<Seq<T>>>, p: usize, s: Seq<T>)
    requires
        occupied(v, p as int),
        s.len() + 1 == slot_items(v, p as int).len(),
    ensures
        total_items(v.update(p as int, Some(s))) + 1 == total_items(v),
{
    lemma_total_items_update(v, p as int, Some(s));
}

/// After a bucket replacement the total count reflects exactly the new
/// bucket's size at that slot: the old items are gone, the new present.
pub proof fn lemma_replaced_total<T>(v: Seq<Option<Seq<T>>>, p: usize, c: Option<Seq<T>>)
    ensures
        total_items(grown(v, p + 1).update(p as int, c)) + slot_items(v, p as int).len()
            == total_items(v) + opt_len(c),
{
    let vg = grown(v, p + 1);
    lemma_grown_properties(v, p + 1);
    lemma_total_items_update(vg, p as int, c);
}

/// A queue seen as a single bucket of an outer queue reports one more
/// item after a push at any of its own priorities: this is what keeps an
/// outer queue's count correct when its buckets are themselves queues.
pub proof fn lemma_nested_one_added<T>(v: Seq<Option<Seq<T>>>, p: usize, item: T)
    ensures
        flat_items(
            grown(v, p + 1).update(p as int, Some(slot_items(v, p as int).push(item))),
        ).len() == flat_items(v).len() + 1,
{
    lemma_flat_items_len(v);
    lemma_flat_items_len(grown(v, p + 1).update(p as int, Some(slot_items(v, p as int).push(item))));
    lemma_one_added(v, p, item);
}

/// Replacing the bucket at `p` out and then back restores the queue:
/// `w` is the state after `replace(p, None)` and `r` what that call
/// returned; replacing `r` (or an empty bucket in its stead) back in
/// restores every priority's items and the total count, and if a bucket
/// was present at `p` the state is restored exactly.
pub proof fn lemma_replace_round_trip<T>(
    v: Seq<Option<Seq<T>>>,
    p: usize,
    w: Seq<Option<Seq<T>>>,
    r: Option<Seq<T>>,
)
    requires
        w == grown(v, p + 1).update(p as int, None),
        r == slot_of(v, p as int),
    ensures
        forall|q: int|
            slot_items(
                grown(w, p + 1).update(
                    p as int,
                    Some(
                        match r {
                            Some(s) => s,
                            None => Seq::empty(),
                        },
                    ),
                ),
                q,
            ) == slot_items(v, q),
        total_items(
            grown(w, p + 1).update(
                p as int,
                Some(
                    match r {
                        Some(s) => s,
                        None => Seq::empty(),
                    },
                ),
            ),
        ) == total_items(v),
        p < v.len() && v[p as int] is Some ==> grown(w, p + 1).update(p as int, r) == v,
    {
        let back = Some(
            match r {
                Some(s) => s,
                None => Seq::empty(),
            },
        );
        lemma_grown_properties(v, p + 1);
        lemma_grown_properties(w, p + 1);
        let v2 = grown(w, p + 1).update(p as int, back);
        assert forall|q: int| slot_items(v2, q) == slot_items(v, q) by {
            if q != p {
                assert(slot_items(grown(w, p + 1), q) == slot_items(w, q));
                assert(slot_items(w, q) == slot_items(grown(v, p + 1), q));
                assert(slot_items(grown(v, p + 1), q) == slot_items(v, q));
            }
        }
        assert forall|q: int| slot_items(v2, q).len() == slot_items(v, q).len() by {}
        if v2.len() == v.len() {
            lemma_total_items_len_pointwise(v2, v);
        } else {
            let vx = grown(v, v2.len() as int);
            lemma_grown_properties(v, v2.len() as int);
            assert forall|q: int| slot_items(v2, q).len() == slot_items(vx, q).len() by {
                assert(slot_items(vx, q) == slot_items(v, q));
            }
            lemma_total_items_len_pointwise(v2, vx);
        }
        if p < v.len() && v[p as int] is Some {
            assert(grown(w, p + 1).update(p as int, r) =~= v);
        }
    }

} // verus!
