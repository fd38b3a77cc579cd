//! The minimal capability a container must offer to serve as a bucket:
//! report its size and clear itself.  Buckets that can also be created
//! empty on demand implement `FreshBucket`, which the queue uses to
//! create a bucket lazily the first time a priority is touched.

use vstd::prelude::*;

verus! {

/// A container holding all items that share one priority.  The order in
/// which items are stored is left to the container's own discipline.
///
/// `bucket_inv` is the container's own well-formedness: trivial for a
/// plain vector or deque, but a bucket queue used as a bucket carries its
/// index consistency here, which is what lets queues nest.
pub trait Bucket: Sized {
    type Item;

    /// The items currently held, in storage order.
    spec fn contents(&self) -> Seq<Self::Item>;

    /// The container's internal well-formedness.
    spec fn bucket_inv(&self) -> bool;

    fn len_bucket(&self) -> (n: usize)
        requires
            self.bucket_inv(),
        ensures
            n == self.contents().len(),
    ;

    fn is_empty_bucket(&self) -> (r: bool)
        requires
            self.bucket_inv(),
        ensures
            r == (self.contents().len() == 0),
    ;

    fn clear(&mut self)
        requires
            old(self).bucket_inv(),
        ensures
            final(self).bucket_inv(),
            final(self).contents() == Seq::<Self::Item>::empty(),
    ;
}

/// A bucket that can be created empty, with no context beyond its type.
/// Containers implement this; a deferred handle, which is only ever a
/// window onto an existing queue, does not.
pub trait FreshBucket: Bucket {
    fn new_bucket() -> (b: Self)
        ensures
            b.bucket_inv(),
            b.contents() == Seq::<Self::Item>::empty(),
    ;
}

impl<T> Bucket for Vec<T> {
    type Item = T;

    open spec fn contents(&self) -> Seq<T> {
        self@
    }

    open spec fn bucket_inv(&self) -> bool {
        true
    }

    fn len_bucket(&self) -> (n: usize) {
        self.len()
    }

    fn is_empty_bucket(&self) -> (r: bool) {
        self.len() == 0
    }

    fn clear(&mut self) {
        self.clear()
    }
}

impl<T> FreshBucket for Vec<T> {
    fn new_bucket() -> (b: Self) {
        Vec::new()
    }
}

impl<T> Bucket for std::collections::VecDeque<T> {
    type Item = T;

    open spec fn contents(&self) -> Seq<T> {
        self@
    }

    open spec fn bucket_inv(&self) -> bool {
        true
    }

    fn len_bucket(&self) -> (n: usize) {
        self.len()
    }

    fn is_empty_bucket(&self) -> (r: bool) {
        self.len() == 0
    }

    fn clear(&mut self) {
        self.clear()
    }
}

impl<T> FreshBucket for std::collections::VecDeque<T> {
    fn new_bucket() -> (b: Self) {
        std::collections::VecDeque::new()
    }
}

} // verus!
