//! The first-in-first-out discipline: `enqueue` adds an item at the back
//! of a bucket and `dequeue` removes the item that arrived earliest.

use vstd::prelude::*;

use crate::bucket::Bucket;
use crate::bucket::FreshBucket;
use crate::bucket_queue::BucketQueue;
use crate::index::Index;
use crate::model::grown;
use crate::model::is_min_priority;
use crate::model::is_max_priority;
use crate::model::lemma_slot_le_total;
use crate::model::lemma_total_items_zero;
use crate::model::occupied;
use crate::model::slot_items;
use crate::model::total_items;
use crate::queue::Queue;

verus! {

/// A bucket whose items leave in order of arrival.
pub trait FirstInFirstOutBucket: Bucket {
    fn enqueue(&mut self, item: Self::Item)
        requires
            old(self).bucket_inv(),
        ensures
            final(self).bucket_inv(),
            final(self).contents() == old(self).contents().push(item),
    ;

    fn dequeue(&mut self) -> (r: Option<Self::Item>)
        requires
            old(self).bucket_inv(),
        ensures
            final(self).bucket_inv(),
            old(self).contents().len() == 0 ==> r is None && final(self).contents() == old(self).contents(),
            old(self).contents().len() > 0 ==> r == Some(old(self).contents()[0]) && final(self).contents() == old(self).contents().subrange(1, old(self).contents().len() as int),
    ;
}

impl<T> FirstInFirstOutBucket for std::collections::VecDeque<T> {
    fn enqueue(&mut self, item: T) {
        self.push_back(item)
    }

    fn dequeue(&mut self) -> (r: Option<T>) {
        self.pop_front()
    }
}

/// Priority-qualified queue operations over any queue whose buckets are
/// first-in-first-out.  All operations are provided generically on top of
/// the `Queue` primitives.
pub trait FirstInFirstOutQueue<B: FirstInFirstOutBucket>: Queue<B> {
    /// Add `item` at the back of the bucket at `priority`.
    fn enqueue(&mut self, item: B::Item, priority: usize)
        requires
            old(self).q_wf(),
            old(self).q_fresh(),
            priority < usize::MAX,
            old(self).q_room(1),
        ensures
            final(self).q_wf(),
            final(self).q_fresh() == old(self).q_stays_fresh(),
            final(self).q_stays_fresh() == old(self).q_stays_fresh(),
            final(self).q_view() == grown(old(self).q_view(), priority + 1).update(
                priority as int,
                Some(slot_items(old(self).q_view(), priority as int).push(item)),
            ),
    {
        let bucket = self.bucket_for_adding(priority);
        bucket.enqueue(item);
    }

    /// Remove the earliest-arrived item at `priority`, if any.
    fn dequeue(&mut self, priority: usize) -> (r: Option<B::Item>)
        requires
            old(self).q_wf(),
            old(self).q_fresh(),
        ensures
            final(self).q_wf(),
            final(self).q_fresh() == old(self).q_stays_fresh(),
            final(self).q_stays_fresh() == old(self).q_stays_fresh(),
            !occupied(old(self).q_view(), priority as int) ==> r is None && final(self).q_view()
                == old(self).q_view(),
            occupied(old(self).q_view(), priority as int) ==> r == Some(
                slot_items(old(self).q_view(), priority as int)[0],
            ) && final(self).q_view() == old(self).q_view().update(
                priority as int,
                Some(
                    slot_items(old(self).q_view(), priority as int).subrange(
                        1,
                        slot_items(old(self).q_view(), priority as int).len() as int,
                    ),
                ),
            ),
    {
        match self.bucket_for_removing(priority) {
            Some(bucket) => bucket.dequeue(),
            None => None,
        }
    }

    /// Dequeue from the bucket at the minimum occupied priority.
    fn dequeue_min(&mut self) -> (r: Option<B::Item>)
        requires
            old(self).q_wf(),
            old(self).q_fresh(),
        ensures
            final(self).q_wf(),
            final(self).q_stays_fresh() == old(self).q_stays_fresh(),
            total_items(old(self).q_view()) == 0 ==> r is None && final(self).q_view() == old(
                self,
            ).q_view() && final(self).q_fresh() == old(self).q_fresh(),
            total_items(old(self).q_view()) > 0 ==> r is Some && final(self).q_fresh() == old(
                self,
            ).q_stays_fresh(),
            forall|m: usize|
                is_min_priority(old(self).q_view(), m as int) ==> r == Some(
                    slot_items(old(self).q_view(), m as int)[0],
                ) && final(self).q_view() == old(self).q_view().update(
                    m as int,
                    Some(
                        slot_items(old(self).q_view(), m as int).subrange(
                            1,
                            slot_items(old(self).q_view(), m as int).len() as int,
                        ),
                    ),
                ),
    {
        match self.min_priority() {
            Some(p) => {
                proof {
                    lemma_slot_le_total(self.q_view(), p as int);
                }
                self.dequeue(p)
            },
            None => {
                proof {
                    lemma_total_items_zero(self.q_view());
                }
                None
            },
        }
    }

    /// Dequeue from the bucket at the maximum occupied priority.
    fn dequeue_max(&mut self) -> (r: Option<B::Item>)
        requires
            old(self).q_wf(),
            old(self).q_fresh(),
        ensures
            final(self).q_wf(),
            final(self).q_stays_fresh() == old(self).q_stays_fresh(),
            total_items(old(self).q_view()) == 0 ==> r is None && final(self).q_view() == old(
                self,
            ).q_view() && final(self).q_fresh() == old(self).q_fresh(),
            total_items(old(self).q_view()) > 0 ==> r is Some && final(self).q_fresh() == old(
                self,
            ).q_stays_fresh(),
            forall|m: usize|
                is_max_priority(old(self).q_view(), m as int) ==> r == Some(
                    slot_items(old(self).q_view(), m as int)[0],
                ) && final(self).q_view() == old(self).q_view().update(
                    m as int,
                    Some(
                        slot_items(old(self).q_view(), m as int).subrange(
                            1,
                            slot_items(old(self).q_view(), m as int).len() as int,
                        ),
                    ),
                ),
    {
        match self.max_priority() {
            Some(p) => {
                proof {
                    lemma_slot_le_total(self.q_view(), p as int);
                }
                self.dequeue(p)
            },
            None => {
                proof {
                    lemma_total_items_zero(self.q_view());
                }
                None
            },
        }
    }
}

impl<B: FirstInFirstOutBucket + FreshBucket, I: Index> FirstInFirstOutQueue<B> for BucketQueue<
    B,
    I,
> {

}

} // verus!
