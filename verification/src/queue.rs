//! The contract a priority-keyed collection of buckets offers: locate a
//! bucket for one addition, removal, inspection or replacement, report the
//! occupied priority bounds, and keep its count and bounds correct.
//!
//! The discipline traits layer priority-qualified operations on top of
//! these primitives, and a deferred handle onto a nested queue satisfies
//! the same contract, so one implementation serves any nesting depth.

use vstd::prelude::*;

use crate::bucket::Bucket;
use crate::model::grown;
use crate::model::max_matches;
use crate::model::min_matches;
use crate::model::occupied;
use crate::model::opt_contents;
use crate::model::opt_len;
use crate::model::slot_items;
use crate::model::slot_of;
use crate::model::total_items;

verus! {

/// A priority-keyed collection of buckets of type `B`.
///
/// The model is `q_view`: one optional item sequence per priority.
/// `q_wf` is the structural invariant (the cached count and bounds agree
/// with the buckets).  `q_fresh` says whether the queue will accept an
/// add or remove right now, and `q_stays_fresh` whether it still will
/// after one such operation: a bucket queue itself always will, while a
/// deferred handle is consumed by its first add or remove.
pub trait Queue<B: Bucket>: Sized {
    /// The items at each priority, in storage order.
    spec fn q_view(&self) -> Seq<Option<Seq<B::Item>>>;

    /// The structural invariant: count and min/max agree with the buckets.
    spec fn q_wf(&self) -> bool;

    /// Whether an add or remove may be performed now.
    spec fn q_fresh(&self) -> bool;

    /// Whether an add or remove may still be performed after one has been.
    spec fn q_stays_fresh(&self) -> bool;

    /// The invariant as it stands while a bucket replacement is underway:
    /// the count and bounds still describe the state in which the bucket
    /// at `priority` held `prev_len` items.
    spec fn q_wf_except(&self, priority: int, prev_len: nat) -> bool;

    /// Whether this queue, and every queue it sits inside, can absorb a
    /// net change of `more` items without its count leaving `usize`.
    spec fn q_room(&self, more: int) -> bool;

    /// Room for a larger change is room for a smaller one.
    proof fn q_room_mono(&self, a: int, b: int)
        requires
            self.q_room(a),
            b <= a,
        ensures
            self.q_room(b),
    ;

    /// A well-formed queue's count already fits, with nothing to spare
    /// demanded.
    proof fn q_wf_room(&self)
        requires
            self.q_wf(),
        ensures
            self.q_room(0),
    ;

    /// The bucket value stored at `priority`, if any.  `q_view` abstracts
    /// each bucket to its items; this keeps hold of the bucket itself, so
    /// a handle onto a nested queue can speak of the inner queue.
    spec fn q_slot_val(&self, priority: int) -> Option<B>;

    /// The stored bucket always holds exactly the items the view shows.
    proof fn q_slot_agrees(&self, priority: int)
        ensures
            opt_contents(self.q_slot_val(priority)) == slot_of(self.q_view(), priority),
    ;

    /// A replacement can only be underway at a priority the array covers.
    proof fn q_wf_except_range(&self, priority: int, prev_len: nat)
        requires
            self.q_wf_except(priority, prev_len),
        ensures
            0 <= priority < self.q_view().len(),
    ;

    /// The minimum occupied priority, or `None` when no items are held.
    fn min_priority(&self) -> (r: Option<usize>)
        requires
            self.q_wf(),
        ensures
            min_matches(self.q_view(), r),
    ;

    /// The maximum occupied priority, or `None` when no items are held.
    fn max_priority(&self) -> (r: Option<usize>)
        requires
            self.q_wf(),
        ensures
            max_matches(self.q_view(), r),
    ;

    /// The bucket at `priority`, grown and created on demand, with one
    /// arrival at that priority already recorded: the caller must add
    /// exactly one item through the returned reference.
    fn bucket_for_adding(&mut self, priority: usize) -> (b: &mut B)
        requires
            old(self).q_wf(),
            old(self).q_fresh(),
            priority < usize::MAX,
            old(self).q_room(1),
        ensures
            b.bucket_inv(),
            b.contents() == slot_items(old(self).q_view(), priority as int),
            final(self).q_view() == grown(old(self).q_view(), priority + 1).update(
                priority as int,
                Some(final(b).contents()),
            ),
            final(b).bucket_inv() && final(b).contents().len() == slot_items(
                old(self).q_view(),
                priority as int,
            ).len() + 1 ==> final(self).q_wf(),
            old(self).q_slot_val(priority as int) matches Some(bv) ==> *b == bv,
            final(self).q_slot_val(priority as int) == Some(*final(b)),
            forall|q: int| q != priority ==> final(self).q_slot_val(q) == old(self).q_slot_val(q),
            final(self).q_fresh() == old(self).q_stays_fresh(),
            final(self).q_stays_fresh() == old(self).q_stays_fresh(),
    ;

    /// The bucket at `priority` if it currently holds at least one item,
    /// with one departure at that priority already recorded: the caller
    /// must remove exactly one item through the returned reference.
    fn bucket_for_removing(&mut self, priority: usize) -> (b: Option<&mut B>)
        requires
            old(self).q_wf(),
            old(self).q_fresh(),
        ensures
            match b {
                None => {
                    &&& !occupied(old(self).q_view(), priority as int)
                    &&& final(self).q_view() == old(self).q_view()
                    &&& final(self).q_wf()
                    &&& forall|q: int| final(self).q_slot_val(q) == old(self).q_slot_val(q)
                },
                Some(bref) => {
                    &&& occupied(old(self).q_view(), priority as int)
                    &&& bref.bucket_inv()
                    &&& bref.contents() == slot_items(old(self).q_view(), priority as int)
                    &&& final(self).q_view() == old(self).q_view().update(
                        priority as int,
                        Some(final(bref).contents()),
                    )
                    &&& (final(bref).bucket_inv() && final(bref).contents().len() + 1
                        == slot_items(old(self).q_view(), priority as int).len() ==> final(self).q_wf())
                    &&& old(self).q_slot_val(priority as int) == Some(*bref)
                    &&& final(self).q_slot_val(priority as int) == Some(*final(bref))
                    &&& forall|q: int|
                        q != priority ==> final(self).q_slot_val(q) == old(self).q_slot_val(q)
                },
            },
            final(self).q_fresh() == old(self).q_stays_fresh(),
            final(self).q_stays_fresh() == old(self).q_stays_fresh(),
    ;

    /// A read-only view of the bucket at `priority`, if one is present.
    fn bucket_for_peeking(&self, priority: usize) -> (r: Option<&B>)
        requires
            self.q_wf(),
        ensures
            match r {
                None => slot_of(self.q_view(), priority as int) is None && self.q_slot_val(
                    priority as int,
                ) is None,
                Some(b) => slot_of(self.q_view(), priority as int) == Some(b.contents())
                    && b.bucket_inv() && self.q_slot_val(priority as int) == Some(*b),
            },
    ;

    /// The slot at `priority`, grown on demand, for wholesale replacement.
    /// The count and bounds are not adjusted here: the caller must report
    /// the old and new bucket sizes through `items_replaced` afterwards.
    fn bucket_for_replacing(&mut self, priority: usize) -> (b: &mut Option<B>)
        requires
            old(self).q_wf(),
            priority < usize::MAX,
        ensures
            opt_contents(*b) == slot_of(old(self).q_view(), priority as int),
            (match *b {
                Some(bk) => bk.bucket_inv(),
                None => true,
            }),
            final(self).q_view() == grown(old(self).q_view(), priority + 1).update(
                priority as int,
                opt_contents(*final(b)),
            ),
            final(self).q_wf_except(
                priority as int,
                slot_items(old(self).q_view(), priority as int).len(),
            ),
            *b == old(self).q_slot_val(priority as int),
            final(self).q_slot_val(priority as int) == *final(b),
            forall|q: int| q != priority ==> final(self).q_slot_val(q) == old(self).q_slot_val(q),
            final(self).q_fresh() == old(self).q_fresh(),
            final(self).q_stays_fresh() == old(self).q_stays_fresh(),
    ;

    /// The slot at `priority` again, while a replacement that began with
    /// `bucket_for_replacing` is still unreported: a nested queue uses
    /// this to reach its inner queue one more time so it can restore the
    /// inner invariant before reporting the change outward.
    fn bucket_mid_replacing(&mut self, priority: usize, prev: Ghost<nat>) -> (b: &mut Option<B>)
        requires
            old(self).q_wf_except(priority as int, prev@),
        ensures
            *b == old(self).q_slot_val(priority as int),
            opt_contents(*b) == slot_of(old(self).q_view(), priority as int),
            final(self).q_view() == old(self).q_view().update(
                priority as int,
                opt_contents(*final(b)),
            ),
            final(self).q_wf_except(priority as int, prev@),
            final(self).q_slot_val(priority as int) == *final(b),
            forall|q: int| q != priority ==> final(self).q_slot_val(q) == old(self).q_slot_val(q),
            forall|m: int|
                #[trigger] final(self).q_room(m) == old(self).q_room(
                    m + opt_len(opt_contents(*final(b))) - slot_items(
                        old(self).q_view(),
                        priority as int,
                    ).len(),
                ),
            final(self).q_fresh() == old(self).q_fresh(),
            final(self).q_stays_fresh() == old(self).q_stays_fresh(),
    ;

    /// Report that the bucket at `priority` changed size by
    /// `new_size - old_size` in one replacement, restoring the
    /// invariant.  `prev` is how many items the slot held before; for a
    /// flat replacement it equals `old_size`, while a nested queue
    /// reporting an inner change passes its own slot's true prior size.
    fn items_replaced(
        &mut self,
        priority: usize,
        old_size: usize,
        new_size: usize,
        prev: Ghost<nat>,
    )
        requires
            old(self).q_wf_except(priority as int, prev@),
            (match old(self).q_slot_val(priority as int) {
                Some(bk) => bk.bucket_inv(),
                None => true,
            }),
            new_size - old_size == slot_items(old(self).q_view(), priority as int).len() - prev@,
            old(self).q_room(0),
        ensures
            final(self).q_view() == old(self).q_view(),
            final(self).q_wf(),
            forall|q: int| final(self).q_slot_val(q) == old(self).q_slot_val(q),
            final(self).q_fresh() == old(self).q_fresh(),
            final(self).q_stays_fresh() == old(self).q_stays_fresh(),
    ;

    /// The total number of items across all buckets.
    fn len_queue(&self) -> (n: usize)
        requires
            self.q_wf(),
        ensures
            n == total_items(self.q_view()),
    ;

    /// Whether no bucket holds any item.
    fn is_empty_queue(&self) -> (r: bool)
        requires
            self.q_wf(),
        ensures
            r == (total_items(self.q_view()) == 0),
    ;

    /// Swap the bucket at `priority` for `replacement` in one step,
    /// returning the previous bucket with its contents untouched.
    fn replace(&mut self, priority: usize, replacement: Option<B>) -> (replaced: Option<B>)
        requires
            old(self).q_wf(),
            priority < usize::MAX,
            (match replacement {
                Some(bk) => bk.bucket_inv(),
                None => true,
            }),
            old(self).q_room(
                opt_len(opt_contents(replacement)) - slot_items(
                    old(self).q_view(),
                    priority as int,
                ).len(),
            ),
        ensures
            opt_contents(replaced) == slot_of(old(self).q_view(), priority as int),
            replaced == old(self).q_slot_val(priority as int),
            final(self).q_slot_val(priority as int) == replacement,
            forall|q: int| q != priority ==> final(self).q_slot_val(q) == old(self).q_slot_val(q),
            (match replaced {
                Some(bk) => bk.bucket_inv(),
                None => true,
            }),
            final(self).q_view() == grown(old(self).q_view(), priority + 1).update(
                priority as int,
                opt_contents(replacement),
            ),
            final(self).q_wf(),
            forall|m: int|
                #[trigger] final(self).q_room(m) == old(self).q_room(
                    m + opt_len(opt_contents(replacement)) - slot_items(
                        old(self).q_view(),
                        priority as int,
                    ).len(),
                ),
            final(self).q_fresh() == old(self).q_fresh(),
            final(self).q_stays_fresh() == old(self).q_stays_fresh(),
    ;
}

/// A bucket that is itself a queue: the bridge that lets one bucket
/// queue serve as the bucket type of another.  The two faces must agree:
/// the bucket's well-formedness is the queue's, and the bucket reports
/// exactly as many items as the queue holds.
pub trait NestedBucket<C: Bucket>: Bucket + Queue<C> {
    proof fn bucket_faces_agree(&self)
        ensures
            self.bucket_inv() == self.q_wf(),
            self.contents().len() == total_items(self.q_view()),
            self.q_fresh(),
            self.q_stays_fresh(),
            forall|m: int|
                #[trigger] self.q_room(m) == (total_items(self.q_view()) + m <= usize::MAX),
    ;

    /// An empty queue ready to stand at a fresh priority of the outer
    /// queue: nothing stored at any priority.
    fn blank() -> (b: Self)
        ensures
            b.bucket_inv(),
            b.q_wf(),
            b.q_fresh(),
            b.contents() == Seq::<Self::Item>::empty(),
            b.q_view() == Seq::<Option<Seq<C::Item>>>::empty(),
            forall|q: int| b.q_slot_val(q) is None,
    ;
}

} // verus!
