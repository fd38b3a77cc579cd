//! The deferred single-priority accessor: a short-lived handle bound to
//! one queue and one priority.  It lets a caller address "the bucket at
//! priority P" once and perform a single add or remove without repeating
//! the priority; the first add or remove consumes the handle, and a
//! consumed handle accepts no further mutation (inspection stays open).

use vstd::prelude::*;

use core::marker::PhantomData;

use crate::bucket::Bucket;
use crate::bucket::FreshBucket;
use crate::bucket_queue::BucketQueue;
use crate::double_ended::DoubleEndedBucket;
use crate::double_ended::DoubleEndedQueue;
use crate::first_in_first_out::FirstInFirstOutBucket;
use crate::first_in_first_out::FirstInFirstOutQueue;
use crate::index::Index;
use crate::last_in_first_out::LastInFirstOutBucket;
use crate::last_in_first_out::LastInFirstOutQueue;
use crate::model::grown;
use crate::model::is_min_priority;
use crate::model::is_max_priority;
use crate::model::lemma_grown_properties;
use crate::model::lemma_slot_le_total;
use crate::model::lemma_total_items_update;
use crate::model::lemma_total_items_zero;
use crate::model::occupied;
use crate::model::opt_contents;
use crate::model::opt_len;
use crate::model::slot_items;
use crate::model::slot_of;
use crate::model::total_items;
use crate::queue::NestedBucket;
use crate::queue::Queue;

verus! {

/// A one-shot window onto the bucket at one priority of one queue.
///
/// The single-use rule exists so a caller cannot look up the same
/// bucket's position twice, once against an outdated index state and
/// once after the queue's shape changed: each add or remove re-derives
/// the index exactly once.
pub struct DeferredBucket<'a, Q, B> where Q: Queue<B>, B: Bucket {
    /// The queue this handle looks into.
    pub queue: &'a mut Q,
    /// The priority this handle is bound to.
    pub priority: usize,
    /// Whether the one permitted add or remove has happened.
    pub consumed: bool,
    /// Carries the bucket type the queue is parameterized over.
    pub phantom: PhantomData<B>,
}

impl<'a, Q, B> DeferredBucket<'a, Q, B> where Q: Queue<B>, B: Bucket {
    /// The items currently held at this handle's priority.
    pub open spec fn handle_view(&self) -> Seq<B::Item> {
        slot_items((*self.queue).q_view(), self.priority as int)
    }

    /// Bind a handle to `queue` at `priority`.
    pub fn new(queue: &'a mut Q, priority: usize) -> (h: Self)
        ensures
            h.priority == priority,
            h.consumed == false,
            *h.queue == *old(queue),
            *final(queue) == *final(h.queue),
    {
        DeferredBucket { queue, priority, consumed: false, phantom: PhantomData }
    }

    /// How many items sit at this handle's priority.  Inspection does not
    /// consume the handle and may be repeated.
    pub fn len(&self) -> (n: usize)
        requires
            (*self.queue).q_wf(),
        ensures
            n == self.handle_view().len(),
    {
        match self.queue.bucket_for_peeking(self.priority) {
            Some(bucket) => bucket.len_bucket(),
            None => 0,
        }
    }

    /// Whether no item sits at this handle's priority.  Repeatable.
    pub fn is_empty(&self) -> (r: bool)
        requires
            (*self.queue).q_wf(),
        ensures
            r == (self.handle_view().len() == 0),
    {
        match self.queue.bucket_for_peeking(self.priority) {
            Some(bucket) => bucket.is_empty_bucket(),
            None => true,
        }
    }

    /// The bucket at this handle's priority, created on demand, with one
    /// arrival recorded; consumes the handle.
    pub fn adding(&mut self) -> (b: &mut B)
        requires
            !old(self).consumed,
            (*old(self).queue).q_wf(),
            (*old(self).queue).q_fresh(),
            old(self).priority < usize::MAX,
            (*old(self).queue).q_room(1),
        ensures
            final(self).consumed,
            final(self).priority == old(self).priority,
            b.bucket_inv(),
            b.contents() == old(self).handle_view(),
            (*final(self).queue).q_view() == grown(
                (*old(self).queue).q_view(),
                old(self).priority + 1,
            ).update(old(self).priority as int, Some(final(b).contents())),
            final(b).bucket_inv() && final(b).contents().len() == old(self).handle_view().len() + 1
                ==> (*final(self).queue).q_wf(),
    {
        self.consumed = true;
        self.queue.bucket_for_adding(self.priority)
    }

    /// The bucket at this handle's priority if it holds an item, with one
    /// departure recorded; consumes the handle either way.
    pub fn removing(&mut self) -> (b: Option<&mut B>)
        requires
            !old(self).consumed,
            (*old(self).queue).q_wf(),
            (*old(self).queue).q_fresh(),
        ensures
            final(self).consumed,
            final(self).priority == old(self).priority,
            match b {
                None => {
                    &&& old(self).handle_view().len() == 0
                    &&& (*final(self).queue).q_view() == (*old(self).queue).q_view()
                    &&& (*final(self).queue).q_wf()
                },
                Some(bref) => {
                    &&& old(self).handle_view().len() > 0
                    &&& bref.bucket_inv()
                    &&& bref.contents() == old(self).handle_view()
                    &&& (*final(self).queue).q_view() == (*old(self).queue).q_view().update(
                        old(self).priority as int,
                        Some(final(bref).contents()),
                    )
                    &&& (final(bref).bucket_inv() && final(bref).contents().len() + 1 == old(
                        self,
                    ).handle_view().len() ==> (*final(self).queue).q_wf())
                },
            },
    {
        self.consumed = true;
        self.queue.bucket_for_removing(self.priority)
    }

    /// A read-only view of the bucket at this handle's priority, if one
    /// is present.  Repeatable.
    pub fn peeking(&self) -> (r: Option<&B>)
        requires
            (*self.queue).q_wf(),
        ensures
            match r {
                None => slot_of((*old(self.queue)).q_view(), self.priority as int) is None,
                Some(bucket) => slot_of((*old(self.queue)).q_view(), self.priority as int)
                    == Some(bucket.contents()) && bucket.bucket_inv(),
            },
    {
        self.queue.bucket_for_peeking(self.priority)
    }

    /// The bucket at this handle's priority, created on demand, for
    /// wholesale replacement; `replaced` must report the size change.
    pub fn replacing(&mut self) -> (b: &mut B) where B: FreshBucket
        requires
            (*old(self).queue).q_wf(),
            old(self).priority < usize::MAX,
        ensures
            final(self).consumed == old(self).consumed,
            final(self).priority == old(self).priority,
            b.bucket_inv(),
            b.contents() == old(self).handle_view(),
            (*final(self).queue).q_view() == grown(
                (*old(self).queue).q_view(),
                old(self).priority + 1,
            ).update(old(self).priority as int, Some(final(b).contents())),
            (*final(self).queue).q_wf_except(
                old(self).priority as int,
                old(self).handle_view().len(),
            ),
            (*final(self).queue).q_slot_val(old(self).priority as int) == Some(*final(b)),
    {
        let slot = self.queue.bucket_for_replacing(self.priority);
        if slot.is_none() {
            *slot = Some(B::new_bucket());
        }
        match slot {
            Some(bucket) => bucket,
            None => unreached(),
        }
    }

    /// Report that the bucket at this handle's priority went from
    /// `old_size` to `new_size` items, restoring the queue's invariant.
    pub fn replaced(&mut self, old_size: usize, new_size: usize)
        requires
            (*old(self).queue).q_wf_except(old(self).priority as int, old_size as nat),
            (match (*old(self).queue).q_slot_val(old(self).priority as int) {
                Some(bucket) => bucket.bucket_inv(),
                None => true,
            }),
            new_size == old(self).handle_view().len(),
            (*old(self).queue).q_room(0),
        ensures
            final(self).consumed == old(self).consumed,
            final(self).priority == old(self).priority,
            (*final(self).queue).q_view() == (*old(self).queue).q_view(),
            (*final(self).queue).q_wf(),
    {
        let p = self.priority;
        self.queue.items_replaced(p, old_size, new_size, Ghost(old_size as nat));
    }

    /// Drop the bucket at this handle's priority, items and container
    /// both.  Does not consume the handle.
    pub fn clear(&mut self)
        requires
            (*old(self).queue).q_wf(),
            old(self).priority < usize::MAX,
            (*old(self).queue).q_room(0),
        ensures
            final(self).consumed == old(self).consumed,
            final(self).priority == old(self).priority,
            (*final(self).queue).q_wf(),
            (*final(self).queue).q_view() == grown(
                (*old(self).queue).q_view(),
                old(self).priority + 1,
            ).update(old(self).priority as int, None),
    {
        proof {
            self.queue.q_room_mono(
                0,
                0 - slot_items((*self.queue).q_view(), self.priority as int).len(),
            );
        }
        let p = self.priority;
        self.queue.replace(p, None);
    }
}

impl<'a, Q, B> DeferredBucket<'a, Q, B> where
    Q: LastInFirstOutQueue<B>,
    B: LastInFirstOutBucket,
 {
    /// Push onto the bucket at this handle's priority; consumes the
    /// handle.
    pub fn push(&mut self, item: B::Item)
        requires
            !old(self).consumed,
            (*old(self).queue).q_wf(),
            (*old(self).queue).q_fresh(),
            old(self).priority < usize::MAX,
            (*old(self).queue).q_room(1),
        ensures
            final(self).consumed,
            final(self).priority == old(self).priority,
            (*final(self).queue).q_wf(),
            (*final(self).queue).q_view() == grown(
                (*old(self).queue).q_view(),
                old(self).priority + 1,
            ).update(old(self).priority as int, Some(old(self).handle_view().push(item))),
    {
        self.consumed = true;
        let p = self.priority;
        self.queue.push(item, p);
    }

    /// Pop the most recent item at this handle's priority; consumes the
    /// handle.
    pub fn pop(&mut self) -> (r: Option<B::Item>)
        requires
            !old(self).consumed,
            (*old(self).queue).q_wf(),
            (*old(self).queue).q_fresh(),
        ensures
            final(self).consumed,
            final(self).priority == old(self).priority,
            (*final(self).queue).q_wf(),
            old(self).handle_view().len() == 0 ==> r is None && (*final(self).queue).q_view() == (
            *old(self).queue).q_view(),
            old(self).handle_view().len() > 0 ==> r == Some(old(self).handle_view().last()) && (
            *final(self).queue).q_view() == (*old(self).queue).q_view().update(
                old(self).priority as int,
                Some(old(self).handle_view().drop_last()),
            ),
    {
        self.consumed = true;
        let p = self.priority;
        self.queue.pop(p)
    }
}

impl<'a, Q, B> DeferredBucket<'a, Q, B> where
    Q: FirstInFirstOutQueue<B>,
    B: FirstInFirstOutBucket,
 {
    /// Enqueue at the back of the bucket at this handle's priority;
    /// consumes the handle.
    pub fn enqueue(&mut self, item: B::Item)
        requires
            !old(self).consumed,
            (*old(self).queue).q_wf(),
            (*old(self).queue).q_fresh(),
            old(self).priority < usize::MAX,
            (*old(self).queue).q_room(1),
        ensures
            final(self).consumed,
            final(self).priority == old(self).priority,
            (*final(self).queue).q_wf(),
            (*final(self).queue).q_view() == grown(
                (*old(self).queue).q_view(),
                old(self).priority + 1,
            ).update(old(self).priority as int, Some(old(self).handle_view().push(item))),
    {
        self.consumed = true;
        let p = self.priority;
        self.queue.enqueue(item, p);
    }

    /// Dequeue the earliest item at this handle's priority; consumes the
    /// handle.
    pub fn dequeue(&mut self) -> (r: Option<B::Item>)
        requires
            !old(self).consumed,
            (*old(self).queue).q_wf(),
            (*old(self).queue).q_fresh(),
        ensures
            final(self).consumed,
            final(self).priority == old(self).priority,
            (*final(self).queue).q_wf(),
            old(self).handle_view().len() == 0 ==> r is None && (*final(self).queue).q_view() == (
            *old(self).queue).q_view(),
            old(self).handle_view().len() > 0 ==> r == Some(old(self).handle_view()[0]) && (
            *final(self).queue).q_view() == (*old(self).queue).q_view().update(
                old(self).priority as int,
                Some(
                    old(self).handle_view().subrange(1, old(self).handle_view().len() as int),
                ),
            ),
    {
        self.consumed = true;
        let p = self.priority;
        self.queue.dequeue(p)
    }
}

impl<'a, Q, B> DeferredBucket<'a, Q, B> where Q: DoubleEndedQueue<B>, B: DoubleEndedBucket {
    /// Push at the back of the bucket at this handle's priority; consumes
    /// the handle.
    pub fn push_back(&mut self, item: B::Item)
        requires
            !old(self).consumed,
            (*old(self).queue).q_wf(),
            (*old(self).queue).q_fresh(),
            old(self).priority < usize::MAX,
            (*old(self).queue).q_room(1),
        ensures
            final(self).consumed,
            final(self).priority == old(self).priority,
            (*final(self).queue).q_wf(),
            (*final(self).queue).q_view() == grown(
                (*old(self).queue).q_view(),
                old(self).priority + 1,
            ).update(old(self).priority as int, Some(old(self).handle_view().push(item))),
    {
        self.consumed = true;
        let p = self.priority;
        self.queue.push_back(item, p);
    }

    /// Push at the front of the bucket at this handle's priority;
    /// consumes the handle.
    pub fn push_front(&mut self, item: B::Item)
        requires
            !old(self).consumed,
            (*old(self).queue).q_wf(),
            (*old(self).queue).q_fresh(),
            old(self).priority < usize::MAX,
            (*old(self).queue).q_room(1),
        ensures
            final(self).consumed,
            final(self).priority == old(self).priority,
            (*final(self).queue).q_wf(),
            (*final(self).queue).q_view() == grown(
                (*old(self).queue).q_view(),
                old(self).priority + 1,
            ).update(old(self).priority as int, Some(seq![item] + old(self).handle_view())),
    {
        self.consumed = true;
        let p = self.priority;
        self.queue.push_front(item, p);
    }

    /// Pop from the back of the bucket at this handle's priority;
    /// consumes the handle.
    pub fn pop_back(&mut self) -> (r: Option<B::Item>)
        requires
            !old(self).consumed,
            (*old(self).queue).q_wf(),
            (*old(self).queue).q_fresh(),
        ensures
            final(self).consumed,
            final(self).priority == old(self).priority,
            (*final(self).queue).q_wf(),
            old(self).handle_view().len() == 0 ==> r is None && (*final(self).queue).q_view() == (
            *old(self).queue).q_view(),
            old(self).handle_view().len() > 0 ==> r == Some(old(self).handle_view().last()) && (
            *final(self).queue).q_view() == (*old(self).queue).q_view().update(
                old(self).priority as int,
                Some(old(self).handle_view().drop_last()),
            ),
    {
        self.consumed = true;
        let p = self.priority;
        self.queue.pop_back(p)
    }

    /// Pop from the front of the bucket at this handle's priority;
    /// consumes the handle.
    pub fn pop_front(&mut self) -> (r: Option<B::Item>)
        requires
            !old(self).consumed,
            (*old(self).queue).q_wf(),
            (*old(self).queue).q_fresh(),
        ensures
            final(self).consumed,
            final(self).priority == old(self).priority,
            (*final(self).queue).q_wf(),
            old(self).handle_view().len() == 0 ==> r is None && (*final(self).queue).q_view() == (
            *old(self).queue).q_view(),
            old(self).handle_view().len() > 0 ==> r == Some(old(self).handle_view()[0]) && (
            *final(self).queue).q_view() == (*old(self).queue).q_view().update(
                old(self).priority as int,
                Some(
                    old(self).handle_view().subrange(1, old(self).handle_view().len() as int),
                ),
            ),
    {
        self.consumed = true;
        let p = self.priority;
        self.queue.pop_front(p)
    }
}

impl<'a, Q, B, C> Queue<C> for DeferredBucket<'a, Q, B> where
    Q: Queue<B>,
    B: NestedBucket<C> + FreshBucket,
    C: Bucket,
 {
    open spec fn q_view(&self) -> Seq<Option<Seq<C::Item>>> {
        match (*self.queue).q_slot_val(self.priority as int) {
            Some(inner) => inner.q_view(),
            None => Seq::empty(),
        }
    }

    open spec fn q_wf(&self) -> bool {
        &&& (*self.queue).q_wf()
        &&& self.priority < usize::MAX
        &&& match (*self.queue).q_slot_val(self.priority as int) {
            Some(inner) => inner.q_wf(),
            None => true,
        }
    }

    open spec fn q_fresh(&self) -> bool {
        &&& !self.consumed
        &&& (*self.queue).q_fresh()
    }

    open spec fn q_stays_fresh(&self) -> bool {
        false
    }

    open spec fn q_wf_except(&self, priority: int, prev_len: nat) -> bool {
        match (*self.queue).q_slot_val(self.priority as int) {
            Some(inner) => {
                &&& self.priority < usize::MAX
                &&& inner.q_wf_except(priority, prev_len)
                &&& (*self.queue).q_wf_except(
                    self.priority as int,
                    (total_items(inner.q_view()) - slot_items(inner.q_view(), priority).len()
                        + prev_len) as nat,
                )
            },
            None => false,
        }
    }

    open spec fn q_room(&self, more: int) -> bool {
        &&& (*self.queue).q_room(more)
        &&& total_items(self.q_view()) + more <= usize::MAX
    }

    proof fn q_room_mono(&self, a: int, b: int) {
        (*self.queue).q_room_mono(a, b);
    }

    proof fn q_wf_room(&self) {
        (*self.queue).q_wf_room();
        match (*self.queue).q_slot_val(self.priority as int) {
            Some(inner) => {
                inner.bucket_faces_agree();
                inner.q_wf_room();
            },
            None => {},
        }
    }

    open spec fn q_slot_val(&self, priority: int) -> Option<C> {
        match (*self.queue).q_slot_val(self.priority as int) {
            Some(inner) => inner.q_slot_val(priority),
            None => None,
        }
    }

    proof fn q_slot_agrees(&self, priority: int) {
        match (*self.queue).q_slot_val(self.priority as int) {
            Some(inner) => {
                inner.q_slot_agrees(priority);
            },
            None => {},
        }
    }

    proof fn q_wf_except_range(&self, priority: int, prev_len: nat) {
        match (*self.queue).q_slot_val(self.priority as int) {
            Some(inner) => {
                inner.q_wf_except_range(priority, prev_len);
            },
            None => {},
        }
    }

    fn min_priority(&self) -> (r: Option<usize>) {
        match self.queue.bucket_for_peeking(self.priority) {
            Some(inner) => {
                proof {
                    inner.bucket_faces_agree();
                }
                inner.min_priority()
            },
            None => None,
        }
    }

    fn max_priority(&self) -> (r: Option<usize>) {
        match self.queue.bucket_for_peeking(self.priority) {
            Some(inner) => {
                proof {
                    inner.bucket_faces_agree();
                }
                inner.max_priority()
            },
            None => None,
        }
    }

    fn bucket_for_adding(&mut self, priority: usize) -> (b: &mut C) {
        self.consumed = true;
        let ghost sp = self.priority as int;
        proof {
            (*self.queue).q_slot_agrees(sp);
        }
        let absent = match self.queue.bucket_for_peeking(self.priority) {
            Some(_) => false,
            None => true,
        };
        if absent {
            proof {
                (*self.queue).q_wf_room();
                (*self.queue).q_room_mono(0, 0 - slot_items((*self.queue).q_view(), sp).len());
            }
            let fresh_inner = B::blank();
            self.queue.replace(self.priority, Some(fresh_inner));
        }
        proof {
            (*self.queue).q_slot_agrees(sp);
        }
        let inner = self.queue.bucket_for_adding(self.priority);
        proof {
            inner.bucket_faces_agree();
            let iv0 = inner.q_view();
            assert forall|ib: B| ib.q_wf() implies ib.bucket_inv() && ib.contents().len()
                == total_items(ib.q_view()) by {
                ib.bucket_faces_agree();
            }
            assert forall|s: Seq<C::Item>|
                s.len() == slot_items(iv0, priority as int).len() + 1 implies total_items(
                grown(iv0, priority + 1).update(priority as int, Some(s)),
            ) == total_items(iv0) + 1 by {
                lemma_grown_properties(iv0, priority + 1);
                lemma_total_items_update(grown(iv0, priority + 1), priority as int, Some(s));
            }
        }
        inner.bucket_for_adding(priority)
    }

    fn bucket_for_removing(&mut self, priority: usize) -> (b: Option<&mut C>) {
        self.consumed = true;
        let ghost sp = self.priority as int;
        proof {
            (*self.queue).q_slot_agrees(sp);
        }
        let has_item = match self.queue.bucket_for_peeking(self.priority) {
            Some(inner) => {
                proof {
                    inner.bucket_faces_agree();
                    inner.q_slot_agrees(priority as int);
                }
                match inner.bucket_for_peeking(priority) {
                    Some(bucket) => !bucket.is_empty_bucket(),
                    None => false,
                }
            },
            None => false,
        };
        if !has_item {
            proof {
                assert(slot_items(self.q_view(), priority as int).len() == 0);
                assert(!occupied(self.q_view(), priority as int));
            }
            return None;
        }
        proof {
            let inner0 = (*self.queue).q_slot_val(sp).unwrap();
            lemma_slot_le_total(inner0.q_view(), priority as int);
            inner0.bucket_faces_agree();
            assert(slot_items((*self.queue).q_view(), sp).len() == total_items(inner0.q_view()));
            let ov = (*self.queue).q_view();
            assert forall|fb: B, s: Seq<C::Item>|
                #![trigger fb.q_wf(), inner0.q_view().update(priority as int, Some(s))]
                fb.q_view() == inner0.q_view().update(priority as int, Some(s)) && s.len() + 1
                    == slot_items(inner0.q_view(), priority as int).len() && fb.q_wf() implies
                fb.bucket_inv() && fb.contents().len() + 1 == slot_items(ov, sp).len() by {
                fb.bucket_faces_agree();
                lemma_total_items_update(inner0.q_view(), priority as int, Some(s));
            }
        }
        let inner = match self.queue.bucket_for_removing(self.priority) {
            Some(inner) => inner,
            None => unreached(),
        };
        proof {
            inner.bucket_faces_agree();
            assert forall|ib: B| ib.q_wf() implies ib.bucket_inv() && ib.contents().len()
                == total_items(ib.q_view()) by {
                ib.bucket_faces_agree();
            }
        }
        inner.bucket_for_removing(priority)
    }

    fn bucket_for_peeking(&self, priority: usize) -> (r: Option<&C>) {
        match self.queue.bucket_for_peeking(self.priority) {
            Some(inner) => {
                proof {
                    inner.bucket_faces_agree();
                }
                inner.bucket_for_peeking(priority)
            },
            None => None,
        }
    }

    fn bucket_for_replacing(&mut self, priority: usize) -> (b: &mut Option<C>) {
        let ghost sp = self.priority as int;
        proof {
            (*self.queue).q_slot_agrees(sp);
        }
        let absent = match self.queue.bucket_for_peeking(self.priority) {
            Some(_) => false,
            None => true,
        };
        if absent {
            proof {
                (*self.queue).q_wf_room();
                (*self.queue).q_room_mono(0, 0 - slot_items((*self.queue).q_view(), sp).len());
            }
            let fresh_inner = B::blank();
            self.queue.replace(self.priority, Some(fresh_inner));
        }
        proof {
            (*self.queue).q_slot_agrees(sp);
        }
        let slot = self.queue.bucket_for_replacing(self.priority);
        let inner = match slot {
            Some(inner) => inner,
            None => unreached(),
        };
        proof {
            inner.bucket_faces_agree();
            let iv0 = inner.q_view();
            assert forall|ib: B| ib.q_wf() implies ib.bucket_inv() && ib.contents().len()
                == total_items(ib.q_view()) by {
                ib.bucket_faces_agree();
            }
            assert forall|ib: B|
                total_items(ib.q_view()) >= slot_items(ib.q_view(), priority as int).len() by {
                lemma_slot_le_total(ib.q_view(), priority as int);
            }
            assert forall|oc: Option<Seq<C::Item>>|
                total_items(#[trigger] grown(iv0, priority + 1).update(priority as int, oc))
                    + slot_items(iv0, priority as int).len() == total_items(iv0) + opt_len(oc) by {
                lemma_grown_properties(iv0, priority + 1);
                lemma_total_items_update(grown(iv0, priority + 1), priority as int, oc);
            }
        }
        inner.bucket_for_replacing(priority)
    }

    fn bucket_mid_replacing(&mut self, priority: usize, prev: Ghost<nat>) -> (b: &mut Option<C>) {
        let ghost sp = self.priority as int;
        let ghost outer_prev = (total_items(self.q_view()) - slot_items(
            self.q_view(),
            priority as int,
        ).len() + prev@) as nat;
        proof {
            let inner0 = (*self.queue).q_slot_val(sp).unwrap();
            lemma_slot_le_total(inner0.q_view(), priority as int);
        }
        let slot = self.queue.bucket_mid_replacing(self.priority, Ghost(outer_prev));
        let inner = match slot {
            Some(inner) => inner,
            None => unreached(),
        };
        proof {
            let iv0 = inner.q_view();
            inner.q_wf_except_range(priority as int, prev@);
            assert forall|ib: B| ib.q_wf() implies ib.bucket_inv() && ib.contents().len()
                == total_items(ib.q_view()) by {
                ib.bucket_faces_agree();
            }
            assert forall|ib: B|
                #[trigger] ib.contents().len() == total_items(ib.q_view()) by {
                ib.bucket_faces_agree();
            }
            assert forall|ib: B|
                total_items(ib.q_view()) >= slot_items(ib.q_view(), priority as int).len() by {
                lemma_slot_le_total(ib.q_view(), priority as int);
            }
            assert forall|oc: Option<Seq<C::Item>>|
                total_items(#[trigger] iv0.update(priority as int, oc)) + slot_items(
                    iv0,
                    priority as int,
                ).len() == total_items(iv0) + opt_len(oc) by {
                lemma_total_items_update(iv0, priority as int, oc);
            }
        }
        inner.bucket_mid_replacing(priority, prev)
    }

    fn items_replaced(
        &mut self,
        priority: usize,
        old_size: usize,
        new_size: usize,
        prev: Ghost<nat>,
    ) {
        let ghost sp = self.priority as int;
        let ghost outer_prev = (total_items(self.q_view()) - slot_items(
            self.q_view(),
            priority as int,
        ).len() + prev@) as nat;
        proof {
            let inner0 = (*self.queue).q_slot_val(sp).unwrap();
            lemma_slot_le_total(inner0.q_view(), priority as int);
        }
        {
            let inner = match self.queue.bucket_mid_replacing(self.priority, Ghost(outer_prev)) {
                Some(inner) => inner,
                None => unreached(),
            };
            proof {
                inner.bucket_faces_agree();
                inner.q_wf_except_range(priority as int, prev@);
            }
            inner.items_replaced(priority, old_size, new_size, prev);
            proof {
                assert forall|ib: B| ib.q_wf() implies ib.bucket_inv() && ib.contents().len()
                    == total_items(ib.q_view()) by {
                    ib.bucket_faces_agree();
                }
            }
        }
        proof {
            (*self.queue).q_slot_agrees(sp);
            let fi = (*self.queue).q_slot_val(sp).unwrap();
            fi.bucket_faces_agree();
        }
        self.queue.items_replaced(self.priority, old_size, new_size, Ghost(outer_prev));
    }

    fn len_queue(&self) -> (n: usize) {
        match self.queue.bucket_for_peeking(self.priority) {
            Some(inner) => {
                proof {
                    inner.bucket_faces_agree();
                }
                inner.len_queue()
            },
            None => 0,
        }
    }

    fn is_empty_queue(&self) -> (r: bool) {
        match self.queue.bucket_for_peeking(self.priority) {
            Some(inner) => {
                proof {
                    inner.bucket_faces_agree();
                }
                inner.is_empty_queue()
            },
            None => true,
        }
    }

    fn replace(&mut self, priority: usize, replacement: Option<C>) -> (replaced: Option<C>) {
        let ghost sp = self.priority as int;
        proof {
            (*self.queue).q_wf_room();
            (*self.queue).q_slot_agrees(sp);
            (*self.queue).q_room_mono(0, 0 - slot_items((*self.queue).q_view(), sp).len());
            match (*self.queue).q_slot_val(sp) {
                Some(inner0) => {
                    inner0.bucket_faces_agree();
                    lemma_slot_le_total(inner0.q_view(), priority as int);
                },
                None => {},
            }
            assert forall|ib: B| ib.q_wf() implies ib.bucket_inv() && ib.contents().len()
                == total_items(ib.q_view()) by {
                ib.bucket_faces_agree();
            }
        }
        let taken = self.queue.replace(self.priority, None);
        let mut inner = match taken {
            Some(inner) => inner,
            None => B::blank(),
        };
        proof {
            inner.bucket_faces_agree();
            lemma_slot_le_total(inner.q_view(), priority as int);
        }
        let ghost iv0 = inner.q_view();
        let replaced = inner.replace(priority, replacement);
        proof {
            inner.bucket_faces_agree();
            lemma_grown_properties(iv0, priority + 1);
            lemma_total_items_update(
                grown(iv0, priority + 1),
                priority as int,
                opt_contents(replacement),
            );
        }
        self.queue.replace(self.priority, Some(inner));
        replaced
    }
}

/// Factory methods for deferred handles: any queue can hand out a handle
/// bound to an explicit priority, or to its current minimum or maximum
/// occupied priority (priority 0 when the queue is empty, matching the
/// rule that the first write establishes position zero).
pub trait Deferred<B: Bucket>: Queue<B> + Sized {
    /// A one-shot handle on the bucket at `priority`.
    fn bucket(&mut self, priority: usize) -> (h: DeferredBucket<Self, B>)
        ensures
            h.priority == priority,
            h.consumed == false,
            *h.queue == *old(self),
            *final(self) == *final(h.queue),
    {
        DeferredBucket::new(self, priority)
    }

    /// A handle on the bucket at the minimum occupied priority, or at
    /// priority 0 when the queue is empty.
    fn min_bucket(&mut self) -> (h: DeferredBucket<Self, B>)
        requires
            old(self).q_wf(),
        ensures
            h.consumed == false,
            *h.queue == *old(self),
            *final(self) == *final(h.queue),
            total_items(old(self).q_view()) == 0 ==> h.priority == 0,
            total_items(old(self).q_view()) > 0 ==> is_min_priority(
                old(self).q_view(),
                h.priority as int,
            ),
    {
        let p = match self.min_priority() {
            Some(p) => {
                proof {
                    lemma_slot_le_total(self.q_view(), p as int);
                }
                p
            },
            None => {
                proof {
                    lemma_total_items_zero(self.q_view());
                }
                0
            },
        };
        self.bucket(p)
    }

    /// A handle on the bucket at the maximum occupied priority, or at
    /// priority 0 when the queue is empty.
    fn max_bucket(&mut self) -> (h: DeferredBucket<Self, B>)
        requires
            old(self).q_wf(),
        ensures
            h.consumed == false,
            *h.queue == *old(self),
            *final(self) == *final(h.queue),
            total_items(old(self).q_view()) == 0 ==> h.priority == 0,
            total_items(old(self).q_view()) > 0 ==> is_max_priority(
                old(self).q_view(),
                h.priority as int,
            ),
    {
        let p = match self.max_priority() {
            Some(p) => {
                proof {
                    lemma_slot_le_total(self.q_view(), p as int);
                }
                p
            },
            None => {
                proof {
                    lemma_total_items_zero(self.q_view());
                }
                0
            },
        };
        self.bucket(p)
    }
}

impl<B: Bucket + FreshBucket, I: Index> Deferred<B> for BucketQueue<B, I> {

}

impl<'a, Q, B, C> Deferred<C> for DeferredBucket<'a, Q, B> where
    Q: Queue<B>,
    B: NestedBucket<C> + FreshBucket,
    C: Bucket,
 {

}

impl<'a, Q, B, C> LastInFirstOutQueue<C> for DeferredBucket<'a, Q, B> where
    Q: Queue<B>,
    B: NestedBucket<C> + FreshBucket,
    C: LastInFirstOutBucket,
 {

}

impl<'a, Q, B, C> FirstInFirstOutQueue<C> for DeferredBucket<'a, Q, B> where
    Q: Queue<B>,
    B: NestedBucket<C> + FreshBucket,
    C: FirstInFirstOutBucket,
 {

}

impl<'a, Q, B, C> DoubleEndedQueue<C> for DeferredBucket<'a, Q, B> where
    Q: Queue<B>,
    B: NestedBucket<C> + FreshBucket,
    C: DoubleEndedBucket,
 {

}

} // verus!
