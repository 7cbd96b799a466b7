//! Tests of the capacity-tracked buffers and the two-LIFO fixed buffers.

use cross_alloc::calloc::VecDeque;
use cross_alloc::lifos::FixedDequeLifos;
use cross_alloc::store::Lifos;
use std::time::{SystemTime, UNIX_EPOCH};

#[test]
fn convert_not_invoking_drop() {}

#[test]
fn vec_tracks_capacity_and_contents() {
    let mut v = cross_alloc::calloc::Vec::<u64>::with_capacity(4);
    assert_eq!(v.capacity(), 4);
    assert_eq!(v.len(), 0);
    assert!(v.is_empty());
    v.push(10);
    v.push(20);
    assert_eq!(v.len(), 2);
    assert_eq!(*v.get(0), 10);
    assert_eq!(*v.get(1), 20);
    assert_eq!(v.pop(), Some(20));
    assert_eq!(v.pop(), Some(10));
    assert_eq!(v.pop(), None);
    assert_eq!(v.capacity(), 4);
}

#[test]
fn vec_deque_push_and_pop_both_ends() {
    let mut d = VecDeque::<u64>::with_capacity(5);
    assert_eq!(d.capacity(), 5);
    d.push_back(2);
    d.push_front(1);
    d.push_back(3);
    assert_eq!(d.len(), 3);
    assert_eq!(d.pop_front(), Some(1));
    assert_eq!(d.pop_back(), Some(3));
    assert_eq!(d.pop_back(), Some(2));
    assert_eq!(d.pop_back(), None);
    assert_eq!(d.pop_front(), None);
}

#[test]
fn vec_deque_conversions_keep_capacity() {
    let mut v = cross_alloc::calloc::Vec::<u64>::with_capacity(6);
    v.push(7);
    v.push(8);
    let d = VecDeque::from_vec(v);
    assert_eq!(d.capacity(), 6);
    assert_eq!(d.len(), 2);
    let mut v2 = cross_alloc::calloc::Vec::from_vec_deque(d);
    assert_eq!(v2.capacity(), 6);
    assert_eq!(v2.pop(), Some(8));
    assert_eq!(v2.pop(), Some(7));
}

#[test]
fn vec_deque_make_contiguous_reports_one_slice() {
    let mut d = VecDeque::<u64>::with_capacity(4);
    d.push_front(2);
    d.push_back(3);
    d.push_front(1);
    d.make_contiguous();
    let (front, back) = d.as_slices();
    assert_eq!(front, &[1, 2, 3]);
    assert!(back.is_empty());
}

#[test]
fn lifos_counts_both_sides() {
    let mut lifos = FixedDequeLifos::<u64>::new_from_empty(VecDeque::with_capacity(4));
    assert_eq!(lifos.front(), 0);
    assert_eq!(lifos.back(), 0);
    lifos.push_front(1);
    lifos.push_back(9);
    lifos.push_front(2);
    assert_eq!(lifos.front(), 2);
    assert_eq!(lifos.back(), 1);
    assert_eq!(lifos.capacity(), 4);
    let mut d = lifos.into_vec_deque();
    // Front stack first (most recent front push first), then the back stack.
    assert_eq!(d.pop_front(), Some(2));
    assert_eq!(d.pop_front(), Some(1));
    assert_eq!(d.pop_front(), Some(9));
    assert_eq!(d.pop_front(), None);
}

#[test]
fn lifos_first_push_back_reports_back_side() {
    // On an empty buffer of capacity at least 2, a first push to the back
    // reports one element on the back side and none on the front, wherever
    // the backing ring buffer physically placed it.
    let mut lifos = FixedDequeLifos::<u64>::new_from_empty(VecDeque::with_capacity(2));
    lifos.push_back(5);
    assert_eq!(lifos.back(), 1);
    assert_eq!(lifos.front(), 0);
}

#[test]
fn left_right_left() {
    let mut lifos = cross_alloc::store::lifos_vec::FixedDequeLifos::<u8>::new_from_empty(
        VecDeque::<u8>::with_capacity(3),
    );
    lifos.push_left(1);
    lifos.push_right(2);
    lifos.push_left(3);
}

#[test]
fn right_left_right() {
    let mut lifos = cross_alloc::store::lifos_vec::FixedDequeLifos::<u8>::new_from_empty(
        VecDeque::<u8>::with_capacity(7),
    );
    lifos.push_right(1);
    lifos.push_left(2);
    lifos.push_left(1);
}

#[test]
fn store_lifos_counts_both_sides() {
    let mut lifos = cross_alloc::store::lifos_vec::FixedDequeLifos::<u64>::new_from_empty(
        VecDeque::with_capacity(5),
    );
    assert!(cross_alloc::store::lifos_vec::FixedDequeLifos::<u64>::has_to_push_left_first());
    lifos.push_left(1);
    lifos.push_right(2);
    lifos.push_left(3);
    assert_eq!(lifos.left(), 2);
    assert_eq!(lifos.right(), 1);
    let mut d = lifos.into_vec_deque();
    // Right stack first (most recent right push first), then the left stack.
    assert_eq!(d.pop_front(), Some(2));
    assert_eq!(d.pop_front(), Some(1));
    assert_eq!(d.pop_front(), Some(3));
    assert_eq!(d.pop_front(), None);
}

// ------------
const MAX_RND: u32 = 1000_000_000;
// Thanks to https://blog.orhun.dev/zero-deps-random-in-rust/
/// Return a (semi)random number, between 0 (inclusive) up to `max` (exclusive). `max-min` must be
/// less than, or equal to, 1 billion (10 to power of 9).
///
/// For high `max-min` (comparable to 1 billion) this is biased towards the lower part of the range.
/// (Of course, `max` must be higher than `min`.)
///
/// NOT crypto-secure - for testing/controlled/isolated runs only.
fn rnd_u32(min: u32, max: u32) -> u32 {
    let range_width = max - min;
    assert!(range_width > 0);
    assert!(range_width <= MAX_RND);
    match SystemTime::now().duration_since(UNIX_EPOCH) {
        Ok(duration) => min + (duration.subsec_nanos() % range_width),
        Err(err) => panic!("Failed to get system time nanoseconds: {}", err),
    }
}

const MIN_VEC_DEQUE_CAPACITY: u32 = 2;
const MAX_VEC_DEQUE_CAPACITY: u32 = 65535;

fn empty_vec_deque_puts_back_item_to_front(capacity: usize) {
    assert!(capacity >= MIN_VEC_DEQUE_CAPACITY as usize);
    let mut vec_deque = VecDeque::<bool>::with_capacity(capacity);

    vec_deque.push_back(true);
    let (front, back) = vec_deque.as_slices();

    assert_eq!(front.len(), 1);
    assert!(back.is_empty());
}

fn single_item_vec_deque_rotate_left_does_not_circular(capacity: usize) {
    assert!(capacity >= MIN_VEC_DEQUE_CAPACITY as usize);
    let mut vec_deque = VecDeque::<bool>::with_capacity(capacity);

    vec_deque.push_back(true);
    vec_deque.rotate_left(1);
    let (front, back) = vec_deque.as_slices();

    assert_eq!(front.len(), 1);
    assert!(back.is_empty());
}

/// Demonstrates the placement quirk of ring-buffer-style double-ended
/// storage: the first item pushed to the back of an empty buffer is reported
/// in the front slice. The two-LIFO buffers special-case this, reporting by
/// side counters instead.
#[test]
fn empty_vec_deque_puts_back_item_to_front_for_capacities() {
    empty_vec_deque_puts_back_item_to_front(MIN_VEC_DEQUE_CAPACITY as usize);

    let capacity = rnd_u32(MIN_VEC_DEQUE_CAPACITY, MAX_VEC_DEQUE_CAPACITY) as usize;
    empty_vec_deque_puts_back_item_to_front(capacity);

    empty_vec_deque_puts_back_item_to_front(MAX_VEC_DEQUE_CAPACITY as usize);
}

/// A rotation of a single-item buffer does not move the item into the
/// wrapped-around slice.
#[test]
fn single_item_vec_deque_rotate_left_does_not_circular_for_capacities() {
    single_item_vec_deque_rotate_left_does_not_circular(MIN_VEC_DEQUE_CAPACITY as usize);

    let capacity = rnd_u32(MIN_VEC_DEQUE_CAPACITY, MAX_VEC_DEQUE_CAPACITY) as usize;
    single_item_vec_deque_rotate_left_does_not_circular(capacity);

    single_item_vec_deque_rotate_left_does_not_circular(MAX_VEC_DEQUE_CAPACITY as usize);
}
