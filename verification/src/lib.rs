//! A priority queue for small, dense, non-negative integer priorities.
//!
//! Items are grouped into buckets keyed by priority; the queue keeps an
//! explicit count and min/max occupied priority instead of a comparison
//! heap, so retrieving at the minimum or maximum priority does not scan
//! every bucket.  The queue is polymorphic over the intra-bucket order
//! (last-in-first-out, first-in-first-out, double-ended, or custom) and
//! composes recursively: a bucket queue can itself serve as the bucket
//! type of an outer bucket queue, giving multi-key prioritisation.

pub mod bucket;
pub mod bucket_queue;
pub mod deferred;
pub mod double_ended;
pub mod first_in_first_out;
pub mod index;
pub mod last_in_first_out;
pub mod laws;
pub mod model;
pub mod queue;

pub use crate::bucket::Bucket;
pub use crate::bucket::FreshBucket;
pub use crate::bucket_queue::BucketQueue;
pub use crate::deferred::Deferred;
pub use crate::deferred::DeferredBucket;
pub use crate::double_ended::DoubleEndedBucket;
pub use crate::double_ended::DoubleEndedQueue;
pub use crate::first_in_first_out::FirstInFirstOutBucket;
pub use crate::first_in_first_out::FirstInFirstOutQueue;
pub use crate::index::Index;
pub use crate::index::SimpleIndex;
pub use crate::last_in_first_out::LastInFirstOutBucket;
pub use crate::last_in_first_out::LastInFirstOutQueue;
pub use crate::queue::NestedBucket;
pub use crate::queue::Queue;
