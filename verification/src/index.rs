//! Incremental maintenance of the item count and the minimum and maximum
//! occupied priority, without scanning every bucket on every operation.
//!
//! Adds tighten the bounds in constant time.  Removing the last item at
//! the current minimum (or maximum) priority costs a linear scan towards
//! the next occupied priority; every other removal is constant time.

use vstd::prelude::*;

use crate::bucket::Bucket;
use crate::model::all_buckets_inv;
use crate::model::contents_of;
use crate::model::index_consistent;
use crate::model::lemma_min_matches_occ;
use crate::model::lemma_max_matches_occ;
use crate::model::lemma_slot_le_total;
use crate::model::lemma_total_items_len_pointwise;
use crate::model::lemma_total_items_update;
use crate::model::max_matches;
use crate::model::max_with;
use crate::model::min_matches;
use crate::model::min_with;
use crate::model::occupied;
use crate::model::slot_items;
use crate::model::total_items;

verus! {

/// The bookkeeping a bucket queue delegates its count and min/max queries
/// to.  `add`/`added_n` are exact over the tracker's own state; `remove`
/// and `removed_n` promise that the tracker ends up consistent with any
/// bucket array reachable by the removal they were told about.
pub trait Index: Sized {
    /// The item count the tracker currently reports.
    spec fn spec_len(&self) -> nat;

    /// The minimum occupied priority the tracker currently reports.
    spec fn spec_min(&self) -> Option<usize>;

    /// The maximum occupied priority the tracker currently reports.
    spec fn spec_max(&self) -> Option<usize>;

    fn new() -> (r: Self)
        ensures
            r.spec_len() == 0,
            r.spec_min() is None,
            r.spec_max() is None,
    ;

    /// Record that one item arrived at `priority`.
    fn add<B: Bucket>(&mut self, priority: usize, buckets: &Vec<Option<B>>)
        requires
            old(self).spec_len() < usize::MAX,
        ensures
            final(self).spec_len() == old(self).spec_len() + 1,
            final(self).spec_min() == Some(min_with(old(self).spec_min(), priority)),
            final(self).spec_max() == Some(max_with(old(self).spec_max(), priority)),
    ;

    /// Record that one item is about to leave the bucket at `priority`.
    /// `buckets` is the array as it stands, with the item still in place;
    /// afterwards the tracker is consistent with every array that differs
    /// from `buckets` only by that bucket holding one item fewer.
    fn remove<B: Bucket>(&mut self, priority: usize, buckets: &Vec<Option<B>>)
        requires
            all_buckets_inv(buckets@),
            index_consistent(
                old(self).spec_len(),
                old(self).spec_min(),
                old(self).spec_max(),
                contents_of(buckets@),
            ),
            occupied(contents_of(buckets@), priority as int),
        ensures
            final(self).spec_len() == old(self).spec_len() - 1,
            forall|v2: Seq<Option<Seq<B::Item>>>|
                v2.len() == buckets@.len() && (forall|q: int|
                    0 <= q < v2.len() && q != priority ==> slot_items(v2, q) == slot_items(
                        contents_of(buckets@),
                        q,
                    )) && slot_items(v2, priority as int).len() + 1 == slot_items(
                    contents_of(buckets@),
                    priority as int,
                ).len() ==> #[trigger] index_consistent(
                    final(self).spec_len(),
                    final(self).spec_min(),
                    final(self).spec_max(),
                    v2,
                ),
    ;

    /// Record that `n >= 1` items arrived at once at `priority`.
    fn added_n<B: Bucket>(&mut self, n: usize, priority: usize, buckets: &Vec<Option<B>>)
        requires
            n >= 1,
            old(self).spec_len() + n <= usize::MAX,
        ensures
            final(self).spec_len() == old(self).spec_len() + n,
            final(self).spec_min() == Some(min_with(old(self).spec_min(), priority)),
            final(self).spec_max() == Some(max_with(old(self).spec_max(), priority)),
    ;

    /// Record that `n` items left the bucket at `priority` at once.
    /// `buckets` is the array after the removal; `pre` is the model of the
    /// array before it, which the tracker was consistent with.
    fn removed_n<B: Bucket>(
        &mut self,
        n: usize,
        priority: usize,
        buckets: &Vec<Option<B>>,
        pre: Ghost<Seq<Option<Seq<B::Item>>>>,
    )
        requires
            all_buckets_inv(buckets@),
            index_consistent(
                old(self).spec_len(),
                old(self).spec_min(),
                old(self).spec_max(),
                pre@,
            ),
            priority < buckets@.len(),
            buckets@.len() == pre@.len(),
            forall|q: int|
                q != priority ==> slot_items(contents_of(buckets@), q) == slot_items(pre@, q),
            slot_items(contents_of(buckets@), priority as int).len() + n == slot_items(
                pre@,
                priority as int,
            ).len(),
        ensures
            final(self).spec_len() == old(self).spec_len() - n,
            index_consistent(
                final(self).spec_len(),
                final(self).spec_min(),
                final(self).spec_max(),
                contents_of(buckets@),
            ),
    ;

    fn min(&self) -> (r: Option<usize>)
        ensures
            r == self.spec_min(),
    ;

    fn max(&self) -> (r: Option<usize>)
        ensures
            r == self.spec_max(),
    ;

    fn len(&self) -> (n: usize)
        ensures
            n == self.spec_len(),
    ;

    fn is_empty(&self) -> (r: bool)
        ensures
            r == (self.spec_len() == 0),
    ;
}

/// The canonical tracker: a count plus cached min/max priorities.
pub struct SimpleIndex {
    len: usize,
    min: Option<usize>,
    max: Option<usize>,
}

impl Index for SimpleIndex {
    closed spec fn spec_len(&self) -> nat {
        self.len as nat
    }

    closed spec fn spec_min(&self) -> Option<usize> {
        self.min
    }

    closed spec fn spec_max(&self) -> Option<usize> {
        self.max
    }

    fn new() -> (r: Self) {
        SimpleIndex { len: 0, min: None, max: None }
    }

    fn add<B: Bucket>(&mut self, priority: usize, buckets: &Vec<Option<B>>) {
        self.added_n(1, priority, buckets)
    }

    fn remove<B: Bucket>(&mut self, priority: usize, buckets: &Vec<Option<B>>) {
        let ghost c = contents_of(buckets@);
        let ghost post0 = c.update(priority as int, Some(Seq::<B::Item>::empty()));
        proof {
            lemma_slot_le_total(c, priority as int);
        }
        self.len = self.len - 1;
        if Self::size_of_bucket(priority, buckets) == 1 {
            proof {
                assert forall|q: int| q != priority implies occupied(post0, q) == occupied(
                    c,
                    q,
                ) by {
                    if 0 <= q < c.len() {
                        assert(slot_items(post0, q) == slot_items(c, q));
                    }
                }
            }
            self.set_new_min_and_max(priority, buckets, Ghost(post0));
        }
        proof {
            let fmin = self.min;
            let fmax = self.max;
            let one = slot_items(c, priority as int).len();
            assert forall|v2: Seq<Option<Seq<B::Item>>>|
                v2.len() == buckets@.len() && (forall|q: int|
                    0 <= q < v2.len() && q != priority ==> slot_items(v2, q) == slot_items(
                        c,
                        q,
                    )) && slot_items(v2, priority as int).len() + 1 == one implies
                #[trigger] index_consistent(self.spec_len(), fmin, fmax, v2) by {
                let w = c.update(priority as int, Some(slot_items(v2, priority as int)));
                lemma_total_items_update(w, priority as int, c[priority as int]);
                assert(w.update(priority as int, c[priority as int]) =~= c);
                assert forall|q: int| slot_items(w, q).len() == slot_items(v2, q).len() by {
                    if q != priority && 0 <= q < w.len() {
                        assert(slot_items(w, q) == slot_items(c, q));
                    }
                }
                lemma_total_items_len_pointwise(w, v2);
                if one == 1 {
                    assert forall|q: int| occupied(post0, q) == occupied(v2, q) by {
                        if q != priority && 0 <= q < c.len() {
                            assert(slot_items(post0, q) == slot_items(c, q));
                            assert(slot_items(v2, q) == slot_items(c, q));
                        }
                    }
                    lemma_min_matches_occ(post0, v2, fmin);
                    lemma_max_matches_occ(post0, v2, fmax);
                } else {
                    assert forall|q: int| occupied(c, q) == occupied(v2, q) by {
                        if q != priority && 0 <= q < c.len() {
                            assert(slot_items(v2, q) == slot_items(c, q));
                        }
                    }
                    lemma_min_matches_occ(c, v2, fmin);
                    lemma_max_matches_occ(c, v2, fmax);
                }
            }
        }
    }

    fn added_n<B: Bucket>(&mut self, n: usize, priority: usize, _buckets: &Vec<Option<B>>) {
        self.len = self.len + n;
        self.min = Some(
            match self.min {
                Some(m) => if m < priority {
                    m
                } else {
                    priority
                },
                None => priority,
            },
        );
        self.max = Some(
            match self.max {
                Some(m) => if m > priority {
                    m
                } else {
                    priority
                },
                None => priority,
            },
        );
    }

    fn removed_n<B: Bucket>(
        &mut self,
        n: usize,
        priority: usize,
        buckets: &Vec<Option<B>>,
        pre: Ghost<Seq<Option<Seq<B::Item>>>>,
    ) {
        let ghost c = contents_of(buckets@);
        proof {
            lemma_slot_le_total(pre@, priority as int);
            let w = pre@.update(priority as int, Some(slot_items(c, priority as int)));
            lemma_total_items_update(pre@, priority as int, Some(slot_items(c, priority as int)));
            assert forall|q: int| slot_items(w, q).len() == slot_items(c, q).len() by {
                if q != priority && 0 <= q < w.len() {
                    assert(slot_items(w, q) == slot_items(pre@, q));
                }
            }
            lemma_total_items_len_pointwise(w, c);
        }
        self.len = self.len - n;
        if n > 0 && Self::bucket_is_empty(priority, buckets) {
            proof {
                let p = priority as int;
                assert(occupied(pre@, p));
                if self.min is None || self.max is None {
                    assert(!occupied(pre@, p));
                }
                let mnv = self.min.unwrap();
                let mxv = self.max.unwrap();
                assert(mnv <= priority && mxv >= priority) by {
                    if (mnv as int) > p || (mxv as int) < p {
                        assert(!occupied(pre@, p));
                    }
                }
                if mnv != priority {
                    assert(occupied(pre@, mnv as int));
                    assert(slot_items(c, mnv as int) == slot_items(pre@, mnv as int));
                }
                assert forall|q: int| q < mnv implies !occupied(c, q) by {
                    assert(!occupied(pre@, q));
                    if q != p {
                        assert(slot_items(c, q) == slot_items(pre@, q));
                    }
                }
                if mxv != priority {
                    assert(occupied(pre@, mxv as int));
                    assert(slot_items(c, mxv as int) == slot_items(pre@, mxv as int));
                }
                assert forall|q: int| q > mxv implies !occupied(c, q) by {
                    assert(!occupied(pre@, q));
                    if q != p {
                        assert(slot_items(c, q) == slot_items(pre@, q));
                    }
                }
            }
            self.set_new_min_and_max(priority, buckets, Ghost(c));
        } else {
            proof {
                assert forall|q: int| occupied(pre@, q) == occupied(c, q) by {
                    if q != priority {
                        assert(slot_items(c, q) == slot_items(pre@, q));
                    }
                }
                lemma_min_matches_occ(pre@, c, self.min);
                lemma_max_matches_occ(pre@, c, self.max);
            }
        }
    }

    fn min(&self) -> (r: Option<usize>) {
        self.min
    }

    fn max(&self) -> (r: Option<usize>) {
        self.max
    }

    fn len(&self) -> (n: usize) {
        self.len
    }

    fn is_empty(&self) -> (r: bool) {
        self.len == 0
    }
}

impl SimpleIndex {
    /// How many items the bucket at `priority` holds; zero when the slot
    /// is out of range or absent.
    fn size_of_bucket<B: Bucket>(priority: usize, buckets: &Vec<Option<B>>) -> (n: usize)
        requires
            all_buckets_inv(buckets@),
        ensures
            n == slot_items(contents_of(buckets@), priority as int).len(),
    {
        if priority < buckets.len() {
            proof {
                assert(match buckets@[priority as int] {
                    Some(bk) => bk.bucket_inv(),
                    None => true,
                });
            }
            match &buckets[priority] {
                Some(bucket) => bucket.len_bucket(),
                None => 0,
            }
        } else {
            0
        }
    }

    /// Whether the bucket at `priority` holds no items (also true when the
    /// slot is out of range or absent).
    fn bucket_is_empty<B: Bucket>(priority: usize, buckets: &Vec<Option<B>>) -> (r: bool)
        requires
            all_buckets_inv(buckets@),
        ensures
            r == !occupied(contents_of(buckets@), priority as int),
    {
        if priority < buckets.len() {
            proof {
                assert(match buckets@[priority as int] {
                    Some(bk) => bk.bucket_inv(),
                    None => true,
                });
            }
            match &buckets[priority] {
                Some(bucket) => bucket.is_empty_bucket(),
                None => true,
            }
        } else {
            true
        }
    }

    /// The bucket at `priority` just became empty; if it was the cached
    /// minimum or maximum, scan towards the other bound for the next
    /// occupied priority.  `post` is the model the caller wants the new
    /// bounds to match: it agrees with `buckets` away from `priority` and
    /// is unoccupied at `priority` itself.
    fn set_new_min_and_max<B: Bucket>(
        &mut self,
        priority: usize,
        buckets: &Vec<Option<B>>,
        post: Ghost<Seq<Option<Seq<B::Item>>>>,
    )
        requires
            all_buckets_inv(buckets@),
            priority < buckets@.len(),
            forall|q: int|
                q != priority ==> occupied(post@, q) == occupied(contents_of(buckets@), q),
            !occupied(post@, priority as int),
            old(self).spec_min() matches Some(mn) && mn <= priority && (mn == priority || occupied(
                post@,
                mn as int,
            )) && (forall|q: int| q < mn ==> !occupied(post@, q)),
            old(self).spec_max() matches Some(mx) && mx >= priority && (mx == priority || occupied(
                post@,
                mx as int,
            )) && (forall|q: int| q > mx ==> !occupied(post@, q)),
            old(self).spec_max() matches Some(mx) && mx < buckets@.len(),
        ensures
            final(self).spec_len() == old(self).spec_len(),
            min_matches(post@, final(self).spec_min()),
            max_matches(post@, final(self).spec_max()),
    {
        let (mn, mx) = match (self.min, self.max) {
            (Some(mn), Some(mx)) => (mn, mx),
            _ => unreached(),
        };
        let _n = buckets.len();
        if priority == mn {
            self.min = Self::scan_up(buckets, mn + 1, mx);
            proof {
                match self.min {
                    Some(q0) => {
                        assert(occupied(post@, q0 as int));
                        assert forall|r: int| r < q0 implies !occupied(post@, r) by {
                            if mn < r < q0 {
                                assert(!occupied(contents_of(buckets@), r));
                            }
                        }
                    },
                    None => {
                        assert forall|r: int| !occupied(post@, r) by {
                            if mn < r <= mx {
                                assert(!occupied(contents_of(buckets@), r));
                            }
                        }
                    },
                }
            }
        }
        if priority == mx {
            if mn == mx {
                self.max = None;
                proof {
                    assert forall|r: int| !occupied(post@, r) by {
                        if mn < r <= mx {
                        }
                    }
                }
            } else {
                self.max = Self::scan_down(buckets, mx - 1, mn);
                proof {
                    match self.max {
                        Some(q0) => {
                            assert(occupied(post@, q0 as int));
                            assert forall|r: int| r > q0 implies !occupied(post@, r) by {
                                if q0 < r < mx {
                                    assert(!occupied(contents_of(buckets@), r));
                                }
                            }
                        },
                        None => {
                            assert(occupied(post@, mn as int) || mn == priority);
                            assert(!occupied(contents_of(buckets@), mn as int));
                            assert(false);
                        },
                    }
                }
            }
        }
    }

    /// The first occupied priority in `[from, to]`, scanning upwards, or
    /// `None` if every priority in that (possibly empty) range is empty.
    fn scan_up<B: Bucket>(buckets: &Vec<Option<B>>, from: usize, to: usize) -> (r: Option<usize>)
        requires
            all_buckets_inv(buckets@),
            from > to || to < buckets@.len(),
        ensures
            match r {
                Some(q) => from <= q <= to && occupied(contents_of(buckets@), q as int) && (forall|
                    i: int,
                |
                    from <= i < q ==> !occupied(contents_of(buckets@), i)),
                None => forall|i: int| from <= i <= to ==> !occupied(contents_of(buckets@), i),
            },
    {
        if from > to {
            return None;
        }
        let n = buckets.len();
        let mut i = from;
        while i <= to
            invariant
                all_buckets_inv(buckets@),
                from <= i <= to + 1,
                to < n,
                n == buckets@.len(),
                forall|j: int| from <= j < i ==> !occupied(contents_of(buckets@), j),
            decreases to + 1 - i,
        {
            proof {
                assert(match buckets@[i as int] {
                    Some(bk) => bk.bucket_inv(),
                    None => true,
                });
            }
            let found = match &buckets[i] {
                Some(bucket) => !bucket.is_empty_bucket(),
                None => false,
            };
            if found {
                return Some(i);
            }
            i = i + 1;
        }
        None
    }

    /// The first occupied priority in `[lo, hi]`, scanning downwards from
    /// `hi`, or `None` if every priority in that range is empty.
    fn scan_down<B: Bucket>(buckets: &Vec<Option<B>>, hi: usize, lo: usize) -> (r: Option<usize>)
        requires
            all_buckets_inv(buckets@),
            lo <= hi,
            hi < buckets@.len(),
        ensures
            match r {
                Some(q) => lo <= q <= hi && occupied(contents_of(buckets@), q as int) && (forall|
                    i: int,
                |
                    q < i <= hi ==> !occupied(contents_of(buckets@), i)),
                None => forall|i: int| lo <= i <= hi ==> !occupied(contents_of(buckets@), i),
            },
    {
        let mut i = hi;
        loop
            invariant
                all_buckets_inv(buckets@),
                lo <= i <= hi,
                hi < buckets@.len(),
                forall|j: int| i < j <= hi ==> !occupied(contents_of(buckets@), j),
            decreases i,
        {
            proof {
                assert(match buckets@[i as int] {
                    Some(bk) => bk.bucket_inv(),
                    None => true,
                });
            }
            let found = match &buckets[i] {
                Some(bucket) => !bucket.is_empty_bucket(),
                None => false,
            };
            if found {
                return Some(i);
            }
            if i == lo {
                return None;
            }
            i = i - 1;
        }
    }
}

} // verus!
