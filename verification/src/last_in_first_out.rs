//! The last-in-first-out discipline: `push` adds an item at the top of a
//! bucket and `pop` removes the most recently pushed item.

use vstd::prelude::*;

use crate::bucket::Bucket;
use crate::bucket::FreshBucket;
use crate::bucket_queue::BucketQueue;
use crate::index::Index;
use crate::model::grown;
use crate::model::is_min_priority;
use crate::model::is_max_priority;
use crate::model::lemma_slot_le_total;
use crate::model::lemma_total_items_zero;
use crate::model::occupied;
use crate::model::slot_items;
use crate::model::total_items;
use crate::queue::Queue;

verus! {

/// A bucket whose items leave in reverse order of arrival.
pub trait LastInFirstOutBucket: Bucket {
    fn push(&mut self, item: Self::Item)
        requires
            old(self).bucket_inv(),
        ensures
            final(self).bucket_inv(),
            final(self).contents() == old(self).contents().push(item),
    ;

    fn pop(&mut self) -> (r: Option<Self::Item>)
        requires
            old(self).bucket_inv(),
        ensures
            final(self).bucket_inv(),
            old(self).contents().len() == 0 ==> r is None && final(self).contents() == old(self).contents(),
            old(self).contents().len() > 0 ==> r == Some(old(self).contents().last()) && final(self).contents() == old(self).contents().drop_last(),
    ;
}

impl<T> LastInFirstOutBucket for Vec<T> {
    fn push(&mut self, item: T) {
        self.push(item)
    }

    fn pop(&mut self) -> (r: Option<T>) {
        self.pop()
    }
}

/// Priority-qualified stack operations over any queue whose buckets are
/// last-in-first-out.  All operations are provided generically on top of
/// the `Queue` primitives.
pub trait LastInFirstOutQueue<B: LastInFirstOutBucket>: Queue<B> {
    /// Push `item` onto the top of the bucket at `priority`.
    fn push(&mut self, item: B::Item, priority: usize)
        requires
            old(self).q_wf(),
            old(self).q_fresh(),
            priority < usize::MAX,
            old(self).q_room(1),
        ensures
            final(self).q_wf(),
            final(self).q_fresh() == old(self).q_stays_fresh(),
            final(self).q_stays_fresh() == old(self).q_stays_fresh(),
            final(self).q_view() == grown(old(self).q_view(), priority + 1).update(
                priority as int,
                Some(slot_items(old(self).q_view(), priority as int).push(item)),
            ),
    {
        let bucket = self.bucket_for_adding(priority);
        bucket.push(item);
    }

    /// Pop the most recently pushed item at `priority`, if any.
    fn pop(&mut self, priority: usize) -> (r: Option<B::Item>)
        requires
            old(self).q_wf(),
            old(self).q_fresh(),
        ensures
            final(self).q_wf(),
            final(self).q_fresh() == old(self).q_stays_fresh(),
            final(self).q_stays_fresh() == old(self).q_stays_fresh(),
            !occupied(old(self).q_view(), priority as int) ==> r is None && final(self).q_view()
                == old(self).q_view(),
            occupied(old(self).q_view(), priority as int) ==> r == Some(
                slot_items(old(self).q_view(), priority as int).last(),
            ) && final(self).q_view() == old(self).q_view().update(
                priority as int,
                Some(slot_items(old(self).q_view(), priority as int).drop_last()),
            ),
    {
        match self.bucket_for_removing(priority) {
            Some(bucket) => bucket.pop(),
            None => None,
        }
    }

    /// Pop from the bucket at the minimum occupied priority.
    fn pop_min(&mut self) -> (r: Option<B::Item>)
        requires
            old(self).q_wf(),
            old(self).q_fresh(),
        ensures
            final(self).q_wf(),
            final(self).q_stays_fresh() == old(self).q_stays_fresh(),
            total_items(old(self).q_view()) == 0 ==> r is None && final(self).q_view() == old(
                self,
            ).q_view() && final(self).q_fresh() == old(self).q_fresh(),
            total_items(old(self).q_view()) > 0 ==> r is Some && final(self).q_fresh() == old(
                self,
            ).q_stays_fresh(),
            forall|m: usize|
                is_min_priority(old(self).q_view(), m as int) ==> r == Some(
                    slot_items(old(self).q_view(), m as int).last(),
                ) && final(self).q_view() == old(self).q_view().update(
                    m as int,
                    Some(slot_items(old(self).q_view(), m as int).drop_last()),
                ),
    {
        match self.min_priority() {
            Some(p) => {
                proof {
                    lemma_slot_le_total(self.q_view(), p as int);
                }
                self.pop(p)
            },
            None => {
                proof {
                    lemma_total_items_zero(self.q_view());
                }
                None
            },
        }
    }

    /// Pop from the bucket at the maximum occupied priority.
    fn pop_max(&mut self) -> (r: Option<B::Item>)
        requires
            old(self).q_wf(),
            old(self).q_fresh(),
        ensures
            final(self).q_wf(),
            final(self).q_stays_fresh() == old(self).q_stays_fresh(),
            total_items(old(self).q_view()) == 0 ==> r is None && final(self).q_view() == old(
                self,
            ).q_view() && final(self).q_fresh() == old(self).q_fresh(),
            total_items(old(self).q_view()) > 0 ==> r is Some && final(self).q_fresh() == old(
                self,
            ).q_stays_fresh(),
            forall|m: usize|
                is_max_priority(old(self).q_view(), m as int) ==> r == Some(
                    slot_items(old(self).q_view(), m as int).last(),
                ) && final(self).q_view() == old(self).q_view().update(
                    m as int,
                    Some(slot_items(old(self).q_view(), m as int).drop_last()),
                ),
    {
        match self.max_priority() {
            Some(p) => {
                proof {
                    lemma_slot_le_total(self.q_view(), p as int);
                }
                self.pop(p)
            },
            None => {
                proof {
                    lemma_total_items_zero(self.q_view());
                }
                None
            },
        }
    }
}

impl<B: LastInFirstOutBucket + FreshBucket, I: Index> LastInFirstOutQueue<B> for BucketQueue<
    B,
    I,
> {

}

} // verus!
