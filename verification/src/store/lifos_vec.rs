//! The deque-backed [`Lifos`] implementation: left and right stacks packed
//! into one fixed-capacity [`VecDeque`].
//!
//! The left stack lives at the queue's logical back, the right stack at its
//! logical front. The side counters are logical bookkeeping: which physical
//! slice holds the very first right-pushed value of an empty queue is a
//! ring-buffer placement detail (see [`VecDeque::push_back`]) and does not
//! show in the reported side lengths.

use vstd::prelude::*;

use crate::calloc::{Allocator, Global, VecDeque};
use crate::store::Lifos;

verus! {

/// Two LIFO stacks in one fixed-capacity [`VecDeque`], named by side.
#[derive(Debug)]
pub struct FixedDequeLifos<T, A: Allocator = Global> {
    vec_deque: VecDeque<T, A>,
    /// Left ("back") side length.
    left: usize,
    /// Right ("front") side length.
    right: usize,
    /// Capacity of the backing queue at creation; checked never to change.
    original_capacity: usize,
}

impl<T, A: Allocator> FixedDequeLifos<T, A> {
    /// Wrap an empty queue of capacity at least 2 (the backing double-ended
    /// storage needs one slot of slack to place a first right-side value).
    pub fn new_from_empty(vec_deque: VecDeque<T, A>) -> (r: Self)
        requires
            vec_deque.wf(),
            vec_deque@.len() == 0,
            vec_deque.spec_capacity() >= 2,
        ensures
            r.inv(),
            r.left_seq() == Seq::<T>::empty(),
            r.right_seq() == Seq::<T>::empty(),
            r.total_capacity() == vec_deque.spec_capacity(),
    {
        let cap = vec_deque.capacity();
        let r = FixedDequeLifos { vec_deque, left: 0, right: 0, original_capacity: cap };
        proof {
            assert(r.left_seq() =~= Seq::<T>::empty());
            assert(r.right_seq() =~= Seq::<T>::empty());
        }
        r
    }

    /// Consume this instance and return the underlying queue: the right
    /// stack in logical order, then the left stack. The counters and the
    /// queue are kept in sync by every operation.
    pub fn into_vec_deque(self) -> (r: VecDeque<T, A>)
        requires
            self.inv(),
        ensures
            r.wf(),
            r@ == self.right_seq() + self.left_seq(),
            r.spec_capacity() == self.total_capacity(),
    {
        proof {
            assert(self.right_seq() + self.left_seq() =~= self.vec_deque@);
        }
        self.vec_deque
    }
}

impl<T, A: Allocator> Lifos<T> for FixedDequeLifos<T, A> {
    closed spec fn inv(&self) -> bool {
        &&& self.vec_deque.wf()
        &&& self.left + self.right == self.vec_deque@.len()
        &&& self.vec_deque.spec_capacity() == self.original_capacity
        &&& self.original_capacity >= 2
    }

    closed spec fn left_seq(&self) -> Seq<T> {
        self.vec_deque@.skip(self.right as int)
    }

    closed spec fn right_seq(&self) -> Seq<T> {
        self.vec_deque@.take(self.right as int)
    }

    closed spec fn total_capacity(&self) -> usize {
        self.original_capacity
    }

    /// The backing ring buffer reports the first value of an empty queue in
    /// its front slice wherever it was pushed, so pushing left first keeps
    /// physical slices and side counters aligned from the start.
    fn has_to_push_left_first() -> bool {
        true
    }

    fn push_left(&mut self, value: T) {
        self.vec_deque.push_back(value);
        self.left = self.left + 1;
        proof {
            assert(self.left_seq() =~= old(self).left_seq().push(value));
            assert(self.right_seq() =~= old(self).right_seq());
        }
    }

    fn push_right(&mut self, value: T) {
        self.vec_deque.push_front(value);
        self.right = self.right + 1;
        proof {
            assert(self.right_seq() =~= seq![value] + old(self).right_seq());
            assert(self.left_seq() =~= old(self).left_seq());
        }
    }

    fn right(&self) -> (n: usize) {
        self.right
    }

    fn left(&self) -> (n: usize) {
        self.left
    }
}

} // verus!
