//! The bucket queue itself: a growable array of optional buckets keyed by
//! priority, with an index tracking the item count and the occupied
//! bounds.  It implements `Queue` (so the discipline traits apply) and
//! also `Bucket`/`FreshBucket`, so a bucket queue can serve as the bucket
//! type of an outer bucket queue, nesting to any depth.

use vstd::prelude::*;

use crate::bucket::Bucket;
use crate::bucket::FreshBucket;
use crate::index::Index;
use crate::index::SimpleIndex;
use crate::model::all_buckets_inv;
use crate::model::all_buckets_inv_except;
use crate::model::contents_of;
use crate::model::flat_items;
use crate::model::grown;
use crate::model::index_consistent;
use crate::model::lemma_consistent_after_add;
use crate::model::lemma_contents_of_update;
use crate::model::lemma_flat_items_len;
use crate::model::lemma_grown_properties;
use crate::model::lemma_max_matches_occ;
use crate::model::lemma_min_matches_occ;
use crate::model::lemma_total_items_len_pointwise;
use crate::model::lemma_total_items_update;
use crate::model::occupied;
use crate::model::opt_contents;
use crate::model::opt_len;
use crate::model::slot_items;
use crate::model::slot_of;
use crate::model::total_items;
use crate::queue::NestedBucket;
use crate::queue::Queue;

verus! {

/// A priority queue over small dense non-negative integer priorities.
/// Slot `p` of the backing array holds the bucket for priority `p`, or
/// `None` if none was ever created there.  The array grows to the largest
/// priority seen and never shrinks except on a full clear.
pub struct BucketQueue<B: Bucket, I: Index = SimpleIndex> {
    buckets: Vec<Option<B>>,
    index: I,
}

impl<B: Bucket, I: Index> BucketQueue<B, I> {
    /// The items at each priority.
    pub closed spec fn contents_view(&self) -> Seq<Option<Seq<B::Item>>> {
        contents_of(self.buckets@)
    }

    /// The invariant: the index agrees with the buckets, and every bucket
    /// is itself well-formed.
    pub closed spec fn wf(&self) -> bool {
        &&& index_consistent(
            self.index.spec_len(),
            self.index.spec_min(),
            self.index.spec_max(),
            self.contents_view(),
        )
        &&& all_buckets_inv(self.buckets@)
        &&& total_items(self.contents_view()) <= usize::MAX
    }

    /// The invariant mid-replacement: the index still describes the state
    /// in which the bucket at `priority` held `prev_len` items.
    pub closed spec fn wf_except(&self, priority: int, prev_len: nat) -> bool {
        &&& 0 <= priority < self.contents_view().len()
        &&& index_consistent(
            self.index.spec_len(),
            self.index.spec_min(),
            self.index.spec_max(),
            self.contents_view().update(priority, Some(Seq::new(prev_len, |i: int| arbitrary()))),
        )
        &&& all_buckets_inv_except(self.buckets@, priority)
    }

    /// An empty queue: no buckets, nothing counted.
    pub fn new() -> (q: Self)
        ensures
            q.wf(),
            q.contents_view() == Seq::<Option<Seq<B::Item>>>::empty(),
    {
        BucketQueue { buckets: Vec::new(), index: I::new() }
    }

    /// The total number of items across all buckets.
    pub fn len(&self) -> (n: usize)
        requires
            self.wf(),
        ensures
            n == total_items(self.contents_view()),
    {
        self.index.len()
    }

    /// Whether the queue holds no items at all.
    pub fn is_empty(&self) -> (r: bool)
        requires
            self.wf(),
        ensures
            r == (total_items(self.contents_view()) == 0),
    {
        self.index.is_empty()
    }

    /// Empty the bucket at `priority` in place, keeping the container,
    /// and account for however many items that discarded.
    pub fn prune(&mut self, priority: usize)
        requires
            old(self).wf(),
        ensures
            final(self).wf(),
            slot_of(old(self).contents_view(), priority as int) is None ==> final(self).contents_view() == old(self).contents_view(),
            slot_of(old(self).contents_view(), priority as int) is Some ==> final(self).contents_view() == old(self).contents_view().update(
                priority as int,
                Some(Seq::<B::Item>::empty()),
            ),
    {
        if priority < self.buckets.len() {
            let ghost pre = contents_of(self.buckets@);
            let ghost b0 = self.buckets@;
            let mut removed: usize = 0;
            match &mut self.buckets[priority] {
                Some(bucket) => {
                    removed = bucket.len_bucket();
                    bucket.clear();
                },
                None => {},
            }
            proof {
                let p = priority as int;
                assert(self.buckets@.len() == b0.len());
                assert forall|q: int| 0 <= q < self.buckets@.len() implies (match #[trigger] self.buckets@[q] {
                    Some(bk) => bk.bucket_inv(),
                    None => true,
                }) by {
                    if q != p {
                        assert(self.buckets@[q] == b0[q]);
                    }
                }
                assert forall|q: int| q != p implies slot_items(contents_of(self.buckets@), q)
                    == slot_items(pre, q) by {
                    if 0 <= q < b0.len() {
                        assert(self.buckets@[q] == b0[q]);
                    }
                }
            }
            self.index.removed_n(removed, priority, &self.buckets, Ghost(pre));
            proof {
                let p = priority as int;
                if pre[p] is Some {
                    assert(contents_of(self.buckets@) =~= pre.update(
                        p,
                        Some(Seq::<B::Item>::empty()),
                    ));
                } else {
                    assert(contents_of(self.buckets@) =~= pre);
                }
            }
        }
    }

    /// Extend the array with absent slots until `priority` is in range.
    fn grow(&mut self, priority: usize)
        requires
            priority < usize::MAX,
        ensures
            final(self).index == old(self).index,
            final(self).buckets@.len() == if old(self).buckets@.len() >= priority + 1 {
                old(self).buckets@.len() as int
            } else {
                priority + 1
            },
            forall|q: int|
                0 <= q < old(self).buckets@.len() ==> final(self).buckets@[q] == old(self).buckets@[q],
            forall|q: int|
                old(self).buckets@.len() <= q < final(self).buckets@.len() ==> final(self).buckets@[q] is None,
            contents_of(final(self).buckets@) == grown(
                contents_of(old(self).buckets@),
                priority + 1,
            ),
            all_buckets_inv(old(self).buckets@) ==> all_buckets_inv(final(self).buckets@),
    {
        let ghost b0 = self.buckets@;
        let ghost v0 = contents_of(b0);
        let ghost idx0 = self.index;
        while self.buckets.len() <= priority
            invariant
                priority < usize::MAX,
                self.index == idx0,
                self.buckets@.len() >= b0.len(),
                self.buckets@.len() <= priority + 1 || self.buckets@ == b0,
                forall|q: int| 0 <= q < b0.len() ==> self.buckets@[q] == b0[q],
                forall|q: int| b0.len() <= q < self.buckets@.len() ==> self.buckets@[q] is None,
            decreases priority + 1 - self.buckets@.len(),
        {
            self.buckets.push(None);
        }
        proof {
            if b0.len() >= priority + 1 {
                assert(self.buckets@ == b0);
            } else {
                assert(self.buckets@.len() == priority + 1);
            }
            let g = grown(v0, priority + 1);
            lemma_grown_properties(v0, priority + 1);
            assert forall|j: int| 0 <= j < self.buckets@.len() implies contents_of(
                self.buckets@,
            )[j] == g[j] by {
                if j < b0.len() {
                    assert(self.buckets@[j] == b0[j]);
                    assert(g[j] == v0[j]);
                } else {
                    assert(self.buckets@[j] is None);
                    assert(g[j] is None);
                }
            }
            assert(contents_of(self.buckets@) =~= g);
            if all_buckets_inv(b0) {
                assert forall|q: int| 0 <= q < self.buckets@.len() implies (match #[trigger] self.buckets@[q] {
                    Some(bk) => bk.bucket_inv(),
                    None => true,
                }) by {
                    if q < b0.len() {
                        assert(self.buckets@[q] == b0[q]);
                    }
                }
            }
        }
    }
}

impl<B: Bucket + FreshBucket, I: Index> Queue<B> for BucketQueue<B, I> {
    open spec fn q_view(&self) -> Seq<Option<Seq<B::Item>>> {
        self.contents_view()
    }

    open spec fn q_wf(&self) -> bool {
        self.wf()
    }

    open spec fn q_fresh(&self) -> bool {
        true
    }

    open spec fn q_stays_fresh(&self) -> bool {
        true
    }

    open spec fn q_wf_except(&self, priority: int, prev_len: nat) -> bool {
        self.wf_except(priority, prev_len)
    }

    open spec fn q_room(&self, more: int) -> bool {
        total_items(self.contents_view()) + more <= usize::MAX
    }

    proof fn q_room_mono(&self, a: int, b: int) {
    }

    proof fn q_wf_room(&self) {
    }

    closed spec fn q_slot_val(&self, priority: int) -> Option<B> {
        if 0 <= priority < self.buckets@.len() {
            self.buckets@[priority]
        } else {
            None
        }
    }

    proof fn q_slot_agrees(&self, priority: int) {
    }

    proof fn q_wf_except_range(&self, priority: int, prev_len: nat) {
    }

    fn min_priority(&self) -> (r: Option<usize>) {
        self.index.min()
    }

    fn max_priority(&self) -> (r: Option<usize>) {
        self.index.max()
    }

    fn bucket_for_adding(&mut self, priority: usize) -> (b: &mut B) {
        let ghost v0 = self.contents_view();
        let ghost b0 = self.buckets@;
        let ghost len0 = self.index.spec_len();
        let ghost mn0 = self.index.spec_min();
        let ghost mx0 = self.index.spec_max();
        self.index.add(priority, &self.buckets);
        self.grow(priority);
        let ghost gb = self.buckets@;
        let ghost vg = grown(v0, priority + 1);
        let present = match &self.buckets[priority] {
            Some(_) => true,
            None => false,
        };
        if !present {
            self.buckets.set(priority, Some(B::new_bucket()));
        }
        proof {
            let p = priority as int;
            lemma_grown_properties(v0, p + 1);
            assert(contents_of(gb) == vg);
            // Away from `p` the array is untouched, and slot `p` holds the
            // same items as before (a freshly created bucket is empty, and
            // so was the absent slot it replaces).
            assert forall|q: int|
                0 <= q < self.buckets@.len() && q != p implies self.buckets@[q] == gb[q] by {}
            assert(slot_items(contents_of(self.buckets@), p) == slot_items(v0, p));
            assert(self.buckets@[p] is Some);
            assert forall|q: int| 0 <= q < self.buckets@.len() implies (match #[trigger] self.buckets@[q] {
                Some(bk) => bk.bucket_inv(),
                None => true,
            }) by {
                if q != p {
                    assert(self.buckets@[q] == gb[q]);
                }
            }
            // Substituting any one-item-longer contents at `p` keeps the
            // index consistent: this is what the caller's single push will
            // have done by the time the borrow ends.
            assert forall|s: Seq<B::Item>| s.len() == slot_items(v0, p).len() + 1 implies
                index_consistent(
                self.index.spec_len(),
                self.index.spec_min(),
                self.index.spec_max(),
                contents_of(self.buckets@).update(p, Some(s)),
            ) by {
                let v2 = contents_of(self.buckets@).update(p, Some(s));
                assert forall|q: int| q != p implies slot_items(v2, q) == slot_items(v0, q) by {
                    if 0 <= q < v2.len() {
                        assert(self.buckets@[q] == gb[q]);
                    }
                }
                lemma_consistent_after_add(len0, mn0, mx0, v0, v2, priority, 1);
            }
            assert forall|bk: B|
                contents_of(self.buckets@.update(p, Some(bk))) == contents_of(
                self.buckets@,
            ).update(p, Some(bk.contents())) by {
                lemma_contents_of_update(self.buckets@, p, Some(bk));
            }
            assert forall|bk: B| bk.bucket_inv() implies all_buckets_inv(
                self.buckets@.update(p, Some(bk)),
            ) by {
                let b2 = self.buckets@.update(p, Some(bk));
                assert forall|q: int| 0 <= q < b2.len() implies (match #[trigger] b2[q] {
                    Some(bx) => bx.bucket_inv(),
                    None => true,
                }) by {
                    if q != p {
                        assert(b2[q] == self.buckets@[q]);
                    }
                }
            }
            assert forall|x: Option<Seq<B::Item>>|
                contents_of(self.buckets@).update(p, x) == vg.update(p, x) by {
                assert(contents_of(self.buckets@).update(p, x) =~= vg.update(p, x));
            }
        }
        match &mut self.buckets[priority] {
            Some(bucket) => bucket,
            None => unreached(),
        }
    }

    fn bucket_for_removing(&mut self, priority: usize) -> (b: Option<&mut B>) {
        let occ = if priority < self.buckets.len() {
            match &self.buckets[priority] {
                Some(bucket) => !bucket.is_empty_bucket(),
                None => false,
            }
        } else {
            false
        };
        if !occ {
            return None;
        }
        let ghost v0 = self.contents_view();
        self.index.remove(priority, &self.buckets);
        proof {
            let p = priority as int;
            assert forall|s: Seq<B::Item>| s.len() + 1 == slot_items(v0, p).len() implies
                index_consistent(
                self.index.spec_len(),
                self.index.spec_min(),
                self.index.spec_max(),
                v0.update(p, Some(s)),
            ) by {
                let v2 = v0.update(p, Some(s));
                assert forall|q: int| 0 <= q < v2.len() && q != p implies slot_items(v2, q)
                    == slot_items(v0, q) by {}
            }
            assert forall|bk: B|
                contents_of(self.buckets@.update(p, Some(bk))) == v0.update(
                p,
                Some(bk.contents()),
            ) by {
                lemma_contents_of_update(self.buckets@, p, Some(bk));
            }
            assert forall|bk: B| bk.bucket_inv() implies all_buckets_inv(
                self.buckets@.update(p, Some(bk)),
            ) by {
                let b2 = self.buckets@.update(p, Some(bk));
                assert forall|q: int| 0 <= q < b2.len() implies (match #[trigger] b2[q] {
                    Some(bx) => bx.bucket_inv(),
                    None => true,
                }) by {
                    if q != p {
                        assert(b2[q] == self.buckets@[q]);
                    }
                }
            }
        }
        match &mut self.buckets[priority] {
            Some(bucket) => Some(bucket),
            None => unreached(),
        }
    }

    fn bucket_for_peeking(&self, priority: usize) -> (r: Option<&B>) {
        if priority < self.buckets.len() {
            match &self.buckets[priority] {
                Some(bucket) => Some(bucket),
                None => None,
            }
        } else {
            None
        }
    }

    fn bucket_for_replacing(&mut self, priority: usize) -> (b: &mut Option<B>) {
        let ghost v0 = self.contents_view();
        let ghost len0 = self.index.spec_len();
        let ghost mn0 = self.index.spec_min();
        let ghost mx0 = self.index.spec_max();
        self.grow(priority);
        proof {
            let p = priority as int;
            lemma_grown_properties(v0, p + 1);
            let vg = grown(v0, p + 1);
            let gb = self.buckets@;
            assert(contents_of(gb) == vg);
            let canon = Some(Seq::new(slot_items(v0, p).len(), |i: int| arbitrary()));
            // The index still matches a state in which slot `p` holds as
            // many items as it did before the caller starts swapping.
            assert(index_consistent(len0, mn0, mx0, vg.update(p, canon))) by {
                let w = vg.update(p, canon);
                assert forall|q: int| slot_items(w, q).len() == slot_items(vg, q).len() by {
                    if q != p && 0 <= q < w.len() {
                        assert(slot_items(w, q) == slot_items(vg, q));
                    }
                }
                lemma_total_items_len_pointwise(w, vg);
                assert forall|q: int| occupied(w, q) == occupied(v0, q) by {
                    assert(slot_items(vg, q) == slot_items(v0, q));
                    if q != p && 0 <= q < w.len() {
                        assert(slot_items(w, q) == slot_items(vg, q));
                    }
                }
                lemma_min_matches_occ(v0, w, mn0);
                lemma_max_matches_occ(v0, w, mx0);
            }
            assert forall|o: Option<B>|
                contents_of(gb.update(p, o)) == vg.update(p, opt_contents(o)) by {
                lemma_contents_of_update(gb, p, o);
            }
            assert forall|o: Option<B>|
                contents_of(gb.update(p, o)).update(p, canon) == vg.update(p, canon) by {
                assert(contents_of(gb.update(p, o)).update(p, canon) =~= vg.update(p, canon));
            }
            assert forall|o: Option<B>|
                (match o {
                    Some(bk) => bk.bucket_inv(),
                    None => true,
                }) implies all_buckets_inv(gb.update(p, o)) by {
                let b2 = gb.update(p, o);
                assert forall|q: int| 0 <= q < b2.len() implies (match #[trigger] b2[q] {
                    Some(bx) => bx.bucket_inv(),
                    None => true,
                }) by {
                    if q != p {
                        assert(b2[q] == gb[q]);
                    }
                }
            }
        }
        &mut self.buckets[priority]
    }

    fn bucket_mid_replacing(&mut self, priority: usize, prev: Ghost<nat>) -> (b: &mut Option<B>) {
        let ghost v0 = self.contents_view();
        let ghost b0 = self.buckets@;
        proof {
            let p = priority as int;
            let canon = Some(Seq::new(prev@, |i: int| arbitrary()));
            assert forall|o: Option<B>|
                contents_of(b0.update(p, o)) == v0.update(p, opt_contents(o)) by {
                lemma_contents_of_update(b0, p, o);
            }
            assert forall|o: Option<B>|
                contents_of(b0.update(p, o)).update(p, canon) == v0.update(p, canon) by {
                assert(contents_of(b0.update(p, o)).update(p, canon) =~= v0.update(p, canon));
            }
            assert forall|o: Option<B>| all_buckets_inv_except(b0.update(p, o), p) by {
                let b2 = b0.update(p, o);
                assert forall|q: int| 0 <= q < b2.len() && q != p implies (match #[trigger] b2[q] {
                    Some(bx) => bx.bucket_inv(),
                    None => true,
                }) by {
                    assert(b2[q] == b0[q]);
                }
            }
            assert forall|oc: Option<Seq<B::Item>>|
                total_items(#[trigger] v0.update(p, oc)) + slot_items(v0, p).len() == total_items(
                    v0,
                ) + opt_len(oc) by {
                lemma_total_items_update(v0, p, oc);
            }
        }
        &mut self.buckets[priority]
    }

    fn items_replaced(
        &mut self,
        priority: usize,
        old_size: usize,
        new_size: usize,
        prev: Ghost<nat>,
    ) {
        let ghost v = self.contents_view();
        let ghost p = priority as int;
        let ghost canon = v.update(p, Some(Seq::new(prev@, |i: int| arbitrary())));
        let ghost len0 = self.index.spec_len();
        let ghost mn0 = self.index.spec_min();
        let ghost mx0 = self.index.spec_max();
        proof {
            lemma_total_items_update(v, p, canon[p]);
            assert forall|q: int| 0 <= q < self.buckets@.len() implies (
            match #[trigger] self.buckets@[q] {
                Some(bk) => bk.bucket_inv(),
                None => true,
            }) by {
                if q == p {
                }
            }
        }
        if new_size > old_size {
            self.index.added_n(new_size - old_size, priority, &self.buckets);
            proof {
                let n = (new_size - old_size) as nat;
                assert forall|q: int| q != p implies slot_items(v, q) == slot_items(canon, q) by {}
                lemma_consistent_after_add(len0, mn0, mx0, canon, v, priority, n);
            }
        } else if new_size < old_size {
            proof {
                assert forall|q: int| q != p implies slot_items(contents_of(self.buckets@), q)
                    == slot_items(canon, q) by {}
            }
            self.index.removed_n(old_size - new_size, priority, &self.buckets, Ghost(canon));
        } else {
            proof {
                assert forall|q: int| slot_items(canon, q).len() == slot_items(v, q).len() by {
                    if q != p && 0 <= q < v.len() {
                        assert(slot_items(canon, q) == slot_items(v, q));
                    }
                }
                lemma_total_items_len_pointwise(canon, v);
                assert forall|q: int| occupied(canon, q) == occupied(v, q) by {}
                lemma_min_matches_occ(canon, v, mn0);
                lemma_max_matches_occ(canon, v, mx0);
            }
        }
    }

    fn len_queue(&self) -> (n: usize) {
        self.index.len()
    }

    fn is_empty_queue(&self) -> (r: bool) {
        self.index.is_empty()
    }

    fn replace(&mut self, priority: usize, replacement: Option<B>) -> (replaced: Option<B>) {
        let ghost v0 = self.contents_view();
        let new_size = match &replacement {
            Some(bucket) => bucket.len_bucket(),
            None => 0,
        };
        let b = self.bucket_for_replacing(priority);
        let mut repl = replacement;
        core::mem::swap(b, &mut repl);
        let old_size = match &repl {
            Some(bucket) => bucket.len_bucket(),
            None => 0,
        };
        proof {
            let p = priority as int;
            lemma_grown_properties(v0, p + 1);
            lemma_total_items_update(grown(v0, p + 1), p, opt_contents(replacement));
        }
        self.items_replaced(priority, old_size, new_size, Ghost(old_size as nat));
        repl
    }
}

impl<T, B: Bucket<Item = T>, I: Index> Bucket for BucketQueue<B, I> {
    type Item = T;

    open spec fn contents(&self) -> Seq<T> {
        flat_items(self.contents_view())
    }

    open spec fn bucket_inv(&self) -> bool {
        self.wf()
    }

    fn len_bucket(&self) -> (n: usize) {
        proof {
            lemma_flat_items_len(self.contents_view());
        }
        self.index.len()
    }

    fn is_empty_bucket(&self) -> (r: bool) {
        proof {
            lemma_flat_items_len(self.contents_view());
        }
        self.index.is_empty()
    }

    fn clear(&mut self) {
        self.buckets = Vec::new();
        self.index = I::new();
    }
}

impl<T, B: Bucket<Item = T>, I: Index> FreshBucket for BucketQueue<B, I> {
    fn new_bucket() -> (b: Self) {
        BucketQueue::new()
    }
}

impl<B: Bucket + FreshBucket, I: Index> NestedBucket<B> for BucketQueue<B, I> {
    proof fn bucket_faces_agree(&self) {
        lemma_flat_items_len(self.contents_view());
    }

    fn blank() -> (b: Self) {
        BucketQueue::new()
    }
}

} // verus!
