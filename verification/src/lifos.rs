//! A contract on top of [`VecDeque`]: two LIFO stacks growing toward each
//! other inside one fixed-capacity allocation.
//!
//! The front stack grows by prepending at the logical front, the back stack
//! by appending at the logical back, so `front + back` never exceeds the
//! declared capacity and the queue never reallocates. Keeping within the
//! bounds is the caller's obligation, stated as preconditions here.
//!
//! The underlying ring-buffer-style storage has a placement quirk: the very
//! first value pushed to the back of an empty queue is reported in the front
//! physical slice (see [`VecDeque::push_back`]). The region bookkeeping of
//! this type is logical — [`FixedDequeLifos::front`] and
//! [`FixedDequeLifos::back`] count what was pushed on each side — so the
//! reported side lengths are right regardless of which slice physically
//! stores that first value.

use vstd::prelude::*;

use crate::calloc::{Allocator, Global, Vec, VecDeque};

verus! {

/// Two LIFO stacks packed into one fixed-capacity [`VecDeque`].
#[derive(Debug)]
pub struct FixedDequeLifos<T, A: Allocator = Global> {
    vec_deque: VecDeque<T, A>,
    /// Number of values on the front (left) side.
    front: usize,
    /// Number of values on the back (right) side.
    back: usize,
    /// Capacity of the backing queue at creation; checked never to change.
    original_capacity: usize,
}

impl<T, A: Allocator> FixedDequeLifos<T, A> {
    /// Counters match the queue, and the capacity, at least 2, is the one
    /// captured at creation.
    pub closed spec fn wf(&self) -> bool {
        &&& self.vec_deque.wf()
        &&& self.front + self.back == self.vec_deque@.len()
        &&& self.vec_deque.spec_capacity() == self.original_capacity
        &&& self.original_capacity >= 2
    }

    /// The front stack, most recently pushed value first.
    pub closed spec fn front_seq(&self) -> Seq<T> {
        self.vec_deque@.take(self.front as int)
    }

    /// The back stack, oldest value first.
    pub closed spec fn back_seq(&self) -> Seq<T> {
        self.vec_deque@.skip(self.front as int)
    }

    pub closed spec fn spec_front(&self) -> usize {
        self.front
    }

    pub closed spec fn spec_back(&self) -> usize {
        self.back
    }

    /// The fixed total capacity shared by the two stacks.
    pub closed spec fn spec_capacity(&self) -> usize {
        self.original_capacity
    }

    /// What well-formedness guarantees: the two stacks fit in the fixed
    /// capacity, which is at least 2, and together they are the whole
    /// contents.
    pub proof fn lemma_wf(&self)
        requires
            self.wf(),
        ensures
            self.spec_front() + self.spec_back() <= self.spec_capacity(),
            self.spec_capacity() >= 2,
            self.front_seq().len() == self.spec_front(),
            self.back_seq().len() == self.spec_back(),
    {
        self.vec_deque.lemma_wf();
    }

    /// Wrap an empty queue. The queue must have capacity at least 2: even
    /// when at most one value is expected, the backing double-ended storage
    /// needs one slot of slack to put the first back-side value in place.
    pub fn new_from_empty(vec_deque: VecDeque<T, A>) -> (r: Self)
        requires
            vec_deque.wf(),
            vec_deque@.len() == 0,
            vec_deque.spec_capacity() >= 2,
        ensures
            r.wf(),
            r.front_seq() == Seq::<T>::empty(),
            r.back_seq() == Seq::<T>::empty(),
            r.spec_front() == 0,
            r.spec_back() == 0,
            r.spec_capacity() == vec_deque.spec_capacity(),
    {
        let cap = vec_deque.capacity();
        let r = FixedDequeLifos { vec_deque, front: 0, back: 0, original_capacity: cap };
        proof {
            assert(r.front_seq() =~= Seq::<T>::empty());
            assert(r.back_seq() =~= Seq::<T>::empty());
        }
        r
    }

    /// Wrap an empty vector, reusing its storage and capacity as the queue.
    pub fn new_from_empty_vec(v: Vec<T, A>) -> (r: Self)
        requires
            v.wf(),
            v@.len() == 0,
            v.spec_capacity() >= 2,
        ensures
            r.wf(),
            r.front_seq() == Seq::<T>::empty(),
            r.back_seq() == Seq::<T>::empty(),
            r.spec_front() == 0,
            r.spec_back() == 0,
            r.spec_capacity() == v.spec_capacity(),
    {
        Self::new_from_empty(VecDeque::from_vec(v))
    }

    /// Consume this instance and return the underlying queue: the front stack
    /// in logical order, then the back stack. The counters and the queue are
    /// kept in sync by every operation, so the queue's contents are exactly
    /// the two stacks.
    pub fn into_vec_deque(self) -> (r: VecDeque<T, A>)
        requires
            self.wf(),
        ensures
            r.wf(),
            r@ == self.front_seq() + self.back_seq(),
            r@.len() == self.spec_front() + self.spec_back(),
            r.spec_capacity() == self.spec_capacity(),
    {
        proof {
            assert(self.front_seq() + self.back_seq() =~= self.vec_deque@);
        }
        self.vec_deque
    }

    /// Push onto the front stack. Requires one free slot; violating the
    /// capacity bound would force the backing storage to reallocate, which
    /// this type exists to rule out, so the bound is a precondition checked
    /// at every verified call site.
    pub fn push_front(&mut self, value: T)
        requires
            old(self).wf(),
            old(self).spec_front() + old(self).spec_back() < old(self).spec_capacity(),
        ensures
            final(self).wf(),
            final(self).front_seq() == seq![value] + old(self).front_seq(),
            final(self).back_seq() == old(self).back_seq(),
            final(self).spec_front() == old(self).spec_front() + 1,
            final(self).spec_back() == old(self).spec_back(),
            final(self).spec_capacity() == old(self).spec_capacity(),
    {
        self.vec_deque.push_front(value);
        self.front = self.front + 1;
        proof {
            assert(self.front_seq() =~= seq![value] + old(self).front_seq());
            assert(self.back_seq() =~= old(self).back_seq());
        }
    }

    /// Push onto the back stack. Same capacity precondition as
    /// [`Self::push_front`].
    ///
    /// On an empty buffer the backing storage physically reports the new
    /// value in its front slice (ring-buffer placement); the back counter is
    /// still the one that becomes 1, which is what this type reports.
    pub fn push_back(&mut self, value: T)
        requires
            old(self).wf(),
            old(self).spec_front() + old(self).spec_back() < old(self).spec_capacity(),
        ensures
            final(self).wf(),
            final(self).front_seq() == old(self).front_seq(),
            final(self).back_seq() == old(self).back_seq().push(value),
            final(self).spec_front() == old(self).spec_front(),
            final(self).spec_back() == old(self).spec_back() + 1,
            final(self).spec_capacity() == old(self).spec_capacity(),
    {
        self.vec_deque.push_back(value);
        self.back = self.back + 1;
        proof {
            assert(self.front_seq() =~= old(self).front_seq());
            assert(self.back_seq() =~= old(self).back_seq().push(value));
        }
    }

    /// How many values the front stack holds.
    pub fn front(&self) -> (n: usize)
        ensures
            n == self.spec_front(),
    {
        self.front
    }

    /// How many values the back stack holds.
    pub fn back(&self) -> (n: usize)
        ensures
            n == self.spec_back(),
    {
        self.back
    }

    /// The fixed total capacity shared by the two stacks.
    pub fn capacity(&self) -> (c: usize)
        ensures
            c == self.spec_capacity(),
    {
        self.original_capacity
    }
}

} // verus!
