use bucket_queue::Bucket;
use bucket_queue::BucketQueue;
use bucket_queue::Deferred;
use bucket_queue::DoubleEndedQueue;
use bucket_queue::FirstInFirstOutQueue;
use bucket_queue::LastInFirstOutQueue;
use bucket_queue::Queue;

use std::collections::VecDeque;

#[test]
fn min_and_max_track_every_operation_through_a_full_drain() {
    let mut queue = BucketQueue::<Vec<u32>>::new();

    assert_eq!(queue.min_priority(), None);
    assert_eq!(queue.max_priority(), None);

    queue.push(10, 4);
    assert_eq!(queue.min_priority(), Some(4));
    assert_eq!(queue.max_priority(), Some(4));

    queue.push(20, 1);
    assert_eq!(queue.min_priority(), Some(1));
    assert_eq!(queue.max_priority(), Some(4));

    queue.push(30, 9);
    assert_eq!(queue.min_priority(), Some(1));
    assert_eq!(queue.max_priority(), Some(9));

    assert_eq!(queue.pop(1), Some(20));
    assert_eq!(queue.min_priority(), Some(4));
    assert_eq!(queue.max_priority(), Some(9));

    assert_eq!(queue.pop(9), Some(30));
    assert_eq!(queue.min_priority(), Some(4));
    assert_eq!(queue.max_priority(), Some(4));

    assert_eq!(queue.pop(4), Some(10));
    assert_eq!(queue.min_priority(), None);
    assert_eq!(queue.max_priority(), None);
}

#[test]
fn len_counts_pushes_minus_successful_pops_only() {
    let mut queue = BucketQueue::<Vec<&'static str>>::new();

    queue.push("kept", 2);
    queue.push("taken", 5);
    assert_eq!(queue.len(), 2);

    // An unsuccessful pop at an untouched priority changes nothing.
    assert_eq!(queue.pop(3), None);
    assert_eq!(queue.len(), 2);

    // An unsuccessful pop at a drained priority changes nothing either.
    assert_eq!(queue.pop(5), Some("taken"));
    assert_eq!(queue.pop(5), None);
    assert_eq!(queue.len(), 1);

    // Popping an empty queue leaves the length at zero.
    assert_eq!(queue.pop(2), Some("kept"));
    assert_eq!(queue.pop(2), None);
    assert_eq!(queue.pop_min(), None);
    assert_eq!(queue.len(), 0);
}

#[test]
fn fifo_order_per_priority_is_independent_of_other_priorities() {
    let mut queue = BucketQueue::<VecDeque<u32>>::new();

    queue.enqueue(1, 0);
    queue.enqueue(100, 7);
    queue.enqueue(2, 0);
    queue.enqueue(101, 7);
    queue.enqueue(3, 0);

    // Activity at priority 7 does not disturb the order at priority 0.
    assert_eq!(queue.dequeue(7), Some(100));
    assert_eq!(queue.dequeue(0), Some(1));
    assert_eq!(queue.dequeue(7), Some(101));
    assert_eq!(queue.dequeue(0), Some(2));
    assert_eq!(queue.dequeue(0), Some(3));
    assert_eq!(queue.dequeue(0), None);
}

#[test]
fn replace_round_trip_restores_the_original_state() {
    let mut queue = BucketQueue::<Vec<&'static str>>::new();

    queue.push("a", 0);
    queue.push("b", 2);
    queue.push("c", 2);
    queue.push("d", 5);

    let taken = queue.replace(2, None);
    assert_eq!(queue.len(), 2);

    queue.replace(2, Some(taken.unwrap_or(Vec::new())));
    assert_eq!(queue.len(), 4);
    assert_eq!(queue.min_priority(), Some(0));
    assert_eq!(queue.max_priority(), Some(5));

    assert_eq!(queue.pop(2), Some("c"));
    assert_eq!(queue.pop(2), Some("b"));
    assert_eq!(queue.pop(0), Some("a"));
    assert_eq!(queue.pop(5), Some("d"));
    assert_eq!(queue.is_empty(), true);
}

#[test]
fn replace_reflects_exactly_the_new_bucket_size() {
    let mut queue = BucketQueue::<Vec<u32>>::new();

    queue.push(1, 3);
    queue.push(2, 3);
    queue.push(3, 3);
    assert_eq!(queue.len(), 3);

    let old = queue.replace(3, Some(vec![7, 8, 9, 10, 11]));
    assert_eq!(old.unwrap(), &[1, 2, 3]);
    assert_eq!(queue.len(), 5);

    let old = queue.replace(3, Some(Vec::new()));
    assert_eq!(old.unwrap(), &[7, 8, 9, 10, 11]);
    assert_eq!(queue.len(), 0);
    assert_eq!(queue.min_priority(), None);
    assert_eq!(queue.max_priority(), None);
}

#[test]
fn prune_empties_one_bucket_in_place() {
    let mut queue = BucketQueue::<Vec<&'static str>>::new();

    queue.push("x", 1);
    queue.push("y", 1);
    queue.push("z", 4);

    queue.prune(1);
    assert_eq!(queue.len(), 1);
    assert_eq!(queue.min_priority(), Some(4));
    assert_eq!(queue.max_priority(), Some(4));

    // Pruning an absent or out-of-range priority changes nothing.
    queue.prune(0);
    queue.prune(9);
    assert_eq!(queue.len(), 1);
    assert_eq!(queue.pop_min(), Some("z"));
    assert_eq!(queue.pop_min(), None);
}

#[test]
fn nested_pushes_count_towards_the_outer_queue() {
    let mut outer = BucketQueue::<BucketQueue<Vec<&'static str>>>::new();

    outer.bucket_for_adding(2).push("deep", 6);
    outer.bucket_for_adding(2).push("deeper", 3);

    assert_eq!(outer.len(), 2);
    assert_eq!(outer.min_priority(), Some(2));
    assert_eq!(outer.max_priority(), Some(2));

    let inner = outer.bucket_for_peeking(2).unwrap();
    assert_eq!(inner.len(), 2);
    assert_eq!(inner.min_priority(), Some(3));
    assert_eq!(inner.max_priority(), Some(6));

    let inner = outer.bucket_for_removing(2).unwrap();
    assert_eq!(inner.pop_min(), Some("deeper"));
    assert_eq!(outer.len(), 1);
}

#[test]
fn lifo_scenario_with_two_priorities() {
    let mut queue = BucketQueue::<Vec<&'static str>>::new();

    queue.push("first", 0);
    queue.push("second", 1);
    queue.push("third", 0);

    assert_eq!(queue.min_priority(), Some(0));
    assert_eq!(queue.max_priority(), Some(1));

    assert_eq!(queue.pop(1), Some("second"));
    assert_eq!(queue.min_priority(), Some(0));
    assert_eq!(queue.max_priority(), Some(0));

    assert_eq!(queue.pop(1), None);
    assert_eq!(queue.pop(0), Some("third"));
    assert_eq!(queue.min_priority(), Some(0));
    assert_eq!(queue.max_priority(), Some(0));

    assert_eq!(queue.pop(0), Some("first"));
    assert_eq!(queue.min_priority(), None);
    assert_eq!(queue.max_priority(), None);

    assert_eq!(queue.pop(0), None);
}

#[test]
fn deferred_peeking_stays_usable_after_inspection() {
    let mut queue = BucketQueue::<Vec<u32>>::new();

    queue.push(5, 3);
    queue.push(6, 3);

    let handle = queue.bucket(3);
    assert_eq!(handle.len(), 2);
    assert_eq!(handle.is_empty(), false);
    assert!(handle.peeking().is_some());
    assert!(handle.peeking().is_some());
    assert_eq!(handle.len(), 2);

    let empty_handle = queue.bucket(9);
    assert_eq!(empty_handle.len(), 0);
    assert_eq!(empty_handle.is_empty(), true);
    assert!(empty_handle.peeking().is_none());
}

#[test]
fn deferred_replacing_and_replaced_swap_a_bucket() {
    let mut queue = BucketQueue::<Vec<&'static str>>::new();

    queue.push("one", 2);
    queue.push("two", 2);

    let mut handle = queue.bucket(2);
    let bucket = handle.replacing();
    let old_size = bucket.len();
    bucket.clear();
    bucket.push("three");
    let new_size = bucket.len();
    handle.replaced(old_size, new_size);

    assert_eq!(queue.len(), 1);
    assert_eq!(queue.pop_min(), Some("three"));
    assert_eq!(queue.pop_min(), None);
}

#[test]
fn nested_handles_carry_every_discipline() {
    let mut fifo = BucketQueue::<BucketQueue<VecDeque<u32>>>::new();

    fifo.bucket(2).enqueue(10, 0);
    fifo.bucket(2).enqueue(11, 0);
    fifo.bucket(2).bucket(1).enqueue(12);

    assert_eq!(fifo.len(), 3);
    assert_eq!(fifo.bucket(2).dequeue_min(), Some(10));
    assert_eq!(fifo.bucket(2).dequeue_min(), Some(11));
    assert_eq!(fifo.bucket(2).dequeue_min(), Some(12));
    assert_eq!(fifo.bucket(2).dequeue_min(), None);

    let mut deque = BucketQueue::<BucketQueue<VecDeque<u32>>>::new();

    deque.bucket(0).push_back(1, 5);
    deque.bucket(0).bucket(5).push_front(0);
    assert_eq!(deque.bucket(0).pop_back(5), Some(1));
    assert_eq!(deque.bucket(0).pop_front(5), Some(0));
    assert_eq!(deque.len(), 0);
}

#[test]
fn double_ended_interleaving_follows_deque_semantics() {
    let mut queue = BucketQueue::<VecDeque<u32>>::new();

    queue.push_back(2, 0);
    queue.push_front(1, 0);
    queue.push_back(3, 0);

    // Bucket 0 now holds 1, 2, 3.
    assert_eq!(queue.pop_front(0), Some(1));
    assert_eq!(queue.pop_back(0), Some(3));

    queue.push_front(0, 0);
    assert_eq!(queue.pop_back(0), Some(2));
    assert_eq!(queue.pop_back(0), Some(0));
    assert_eq!(queue.pop_back(0), None);
}
