//! Capacity-tracked buffer types: a growable vector ([`Vec`]) and a
//! double-ended queue ([`VecDeque`]), both generic over an allocation
//! strategy.
//!
//! Each value carries the capacity it was declared with. Growth past the
//! declared capacity is excluded by precondition, so a buffer never needs to
//! reallocate once created; this is the ground the rest of the crate builds
//! on.

use vstd::prelude::*;

use crate::calloc::{Allocator, Global};

verus! {

/// A growable vector that remembers the capacity it was declared with.
///
/// The declared capacity never changes after creation, and every appending
/// operation requires room under that bound, so the backing storage is never
/// forced to reallocate.
#[derive(Debug)]
pub struct Vec<T, A: Allocator = Global> {
    items: std::vec::Vec<T>,
    cap: usize,
    al: core::marker::PhantomData<A>,
}

impl<T, A: Allocator> View for Vec<T, A> {
    type V = Seq<T>;

    closed spec fn view(&self) -> Seq<T> {
        self.items@
    }
}

impl<T, A: Allocator> Vec<T, A> {
    /// The contents fit under the declared capacity.
    pub closed spec fn wf(&self) -> bool {
        self.items@.len() <= self.cap
    }

    /// The capacity this buffer was declared with.
    pub closed spec fn spec_capacity(&self) -> usize {
        self.cap
    }

    /// What well-formedness guarantees: the contents fit under the declared
    /// capacity.
    pub proof fn lemma_wf(&self)
        requires
            self.wf(),
        ensures
            self@.len() <= self.spec_capacity(),
    {
    }

    /// An empty vector with capacity 0, using the given strategy.
    pub fn new_in(_alloc: A) -> (v: Self)
        ensures
            v.wf(),
            v@ == Seq::<T>::empty(),
            v.spec_capacity() == 0,
    {
        Vec { items: std::vec::Vec::new(), cap: 0, al: core::marker::PhantomData }
    }

    /// An empty vector with capacity 0.
    pub fn new() -> (v: Self)
        ensures
            v.wf(),
            v@ == Seq::<T>::empty(),
            v.spec_capacity() == 0,
    {
        Vec { items: std::vec::Vec::new(), cap: 0, al: core::marker::PhantomData }
    }

    /// An empty vector with the given declared capacity, using the given
    /// strategy.
    pub fn with_capacity_in(capacity: usize, _alloc: A) -> (v: Self)
        ensures
            v.wf(),
            v@ == Seq::<T>::empty(),
            v.spec_capacity() == capacity,
    {
        Vec { items: std::vec::Vec::with_capacity(capacity), cap: capacity, al: core::marker::PhantomData }
    }

    /// An empty vector with the given declared capacity.
    pub fn with_capacity(capacity: usize) -> (v: Self)
        ensures
            v.wf(),
            v@ == Seq::<T>::empty(),
            v.spec_capacity() == capacity,
    {
        Vec { items: std::vec::Vec::with_capacity(capacity), cap: capacity, al: core::marker::PhantomData }
    }

    /// Wrap existing storage under a declared capacity. Crate-internal: used
    /// where one buffer's storage is re-labelled as another's.
    pub(crate) fn from_parts(items: std::vec::Vec<T>, cap: usize) -> (v: Self)
        requires
            items@.len() <= cap,
        ensures
            v.wf(),
            v@ == items@,
            v.spec_capacity() == cap,
    {
        Vec { items, cap, al: core::marker::PhantomData }
    }

    /// Surrender the backing storage and the declared capacity.
    pub(crate) fn into_parts(self) -> (r: (std::vec::Vec<T>, usize))
        ensures
            r.0@ == self@,
            r.1 == self.spec_capacity(),
    {
        (self.items, self.cap)
    }

    pub fn len(&self) -> (n: usize)
        ensures
            n == self@.len(),
    {
        self.items.len()
    }

    pub fn is_empty(&self) -> (e: bool)
        ensures
            e == (self@.len() == 0),
    {
        self.items.len() == 0
    }

    pub fn capacity(&self) -> (c: usize)
        ensures
            c == self.spec_capacity(),
    {
        self.cap
    }

    /// Append one value. Requires room under the declared capacity, so the
    /// backing storage never reallocates on behalf of this call.
    pub fn push(&mut self, value: T)
        requires
            old(self).wf(),
            old(self)@.len() < old(self).spec_capacity(),
        ensures
            final(self).wf(),
            final(self)@ == old(self)@.push(value),
            final(self).spec_capacity() == old(self).spec_capacity(),
    {
        self.items.push(value);
    }

    /// Remove and return the last value, if any.
    pub fn pop(&mut self) -> (r: Option<T>)
        requires
            old(self).wf(),
        ensures
            final(self).wf(),
            final(self).spec_capacity() == old(self).spec_capacity(),
            old(self)@.len() == 0 ==> r is None && final(self)@ == old(self)@,
            old(self)@.len() > 0 ==> r == Some(old(self)@.last()) && final(self)@ == old(self)@.drop_last(),
    {
        self.items.pop()
    }

    /// Read the value at `index`.
    pub fn get(&self, index: usize) -> (r: &T)
        requires
            index < self@.len(),
        ensures
            *r == self@[index as int],
    {
        &self.items[index]
    }

    /// Turn a double-ended queue into a vector over the same storage, keeping
    /// the queue's declared capacity and its contents in order.
    pub fn from_vec_deque(deque: VecDeque<T, A>) -> (v: Self)
        requires
            deque.wf(),
        ensures
            v.wf(),
            v@ == deque@,
            v.spec_capacity() == deque.spec_capacity(),
    {
        let mut deque = deque;
        deque.make_contiguous();
        let (items, _tail, cap) = deque.into_segments();
        Vec { items, cap, al: core::marker::PhantomData }
    }
}

/// A double-ended queue that remembers the capacity it was declared with.
///
/// The contents are modelled as two adjacent physical segments: a front
/// segment and a wrapped back segment, mirroring how a ring buffer lays a
/// deque out in one allocation. The logical contents are the front segment
/// followed by the back segment. As with [`Vec`], growth past the declared
/// capacity is excluded by precondition.
#[derive(Debug)]
pub struct VecDeque<T, A: Allocator = Global> {
    head_seg: std::vec::Vec<T>,
    tail_seg: std::vec::Vec<T>,
    cap: usize,
    al: core::marker::PhantomData<A>,
}

impl<T, A: Allocator> View for VecDeque<T, A> {
    type V = Seq<T>;

    closed spec fn view(&self) -> Seq<T> {
        self.head_seg@ + self.tail_seg@
    }
}

impl<T, A: Allocator> VecDeque<T, A> {
    /// The contents fit under the declared capacity.
    pub closed spec fn wf(&self) -> bool {
        self.head_seg@.len() + self.tail_seg@.len() <= self.cap
    }

    /// The capacity this queue was declared with.
    pub closed spec fn spec_capacity(&self) -> usize {
        self.cap
    }

    /// What well-formedness guarantees: the contents fit under the declared
    /// capacity.
    pub proof fn lemma_wf(&self)
        requires
            self.wf(),
        ensures
            self@.len() <= self.spec_capacity(),
            self@ == self.front_slice() + self.back_slice(),
    {
    }

    /// Contents of the first reported slice (the contiguous run at the
    /// physical start of the queue's logical order).
    pub closed spec fn front_slice(&self) -> Seq<T> {
        self.head_seg@
    }

    /// Contents of the second reported slice (the wrapped-around run).
    pub closed spec fn back_slice(&self) -> Seq<T> {
        self.tail_seg@
    }

    /// An empty queue with capacity 0, using the given strategy.
    pub fn new_in(_alloc: A) -> (v: Self)
        ensures
            v.wf(),
            v@ == Seq::<T>::empty(),
            v.spec_capacity() == 0,
            v.front_slice() == Seq::<T>::empty(),
            v.back_slice() == Seq::<T>::empty(),
    {
        VecDeque {
            head_seg: std::vec::Vec::new(),
            tail_seg: std::vec::Vec::new(),
            cap: 0,
            al: core::marker::PhantomData,
        }
    }

    /// An empty queue with capacity 0.
    pub fn new() -> (v: Self)
        ensures
            v.wf(),
            v@ == Seq::<T>::empty(),
            v.spec_capacity() == 0,
            v.front_slice() == Seq::<T>::empty(),
            v.back_slice() == Seq::<T>::empty(),
    {
        VecDeque {
            head_seg: std::vec::Vec::new(),
            tail_seg: std::vec::Vec::new(),
            cap: 0,
            al: core::marker::PhantomData,
        }
    }

    /// An empty queue with the given declared capacity, using the given
    /// strategy.
    pub fn with_capacity_in(capacity: usize, _alloc: A) -> (v: Self)
        ensures
            v.wf(),
            v@ == Seq::<T>::empty(),
            v.spec_capacity() == capacity,
            v.front_slice() == Seq::<T>::empty(),
            v.back_slice() == Seq::<T>::empty(),
    {
        VecDeque {
            head_seg: std::vec::Vec::with_capacity(capacity),
            tail_seg: std::vec::Vec::new(),
            cap: capacity,
            al: core::marker::PhantomData,
        }
    }

    /// An empty queue with the given declared capacity.
    pub fn with_capacity(capacity: usize) -> (v: Self)
        ensures
            v.wf(),
            v@ == Seq::<T>::empty(),
            v.spec_capacity() == capacity,
            v.front_slice() == Seq::<T>::empty(),
            v.back_slice() == Seq::<T>::empty(),
    {
        VecDeque {
            head_seg: std::vec::Vec::with_capacity(capacity),
            tail_seg: std::vec::Vec::new(),
            cap: capacity,
            al: core::marker::PhantomData,
        }
    }

    /// Turn a vector into a queue over the same storage, keeping the vector's
    /// declared capacity and its contents in order.
    pub fn from_vec(v: Vec<T, A>) -> (d: Self)
        requires
            v.wf(),
        ensures
            d.wf(),
            d@ == v@,
            d.spec_capacity() == v.spec_capacity(),
            d.front_slice() == v@,
            d.back_slice() == Seq::<T>::empty(),
    {
        let (items, cap) = v.into_parts();
        VecDeque { head_seg: items, tail_seg: std::vec::Vec::new(), cap, al: core::marker::PhantomData }
    }

    /// Surrender the two physical segments and the declared capacity.
    /// Crate-internal: used where the storage is re-labelled.
    pub(crate) fn into_segments(self) -> (r: (std::vec::Vec<T>, std::vec::Vec<T>, usize))
        ensures
            r.0@ == self.front_slice(),
            r.1@ == self.back_slice(),
            r.2 == self.spec_capacity(),
    {
        (self.head_seg, self.tail_seg, self.cap)
    }

    pub fn len(&self) -> (n: usize)
        requires
            self.wf(),
        ensures
            n == self@.len(),
    {
        self.head_seg.len() + self.tail_seg.len()
    }

    pub fn is_empty(&self) -> (e: bool)
        ensures
            e == (self@.len() == 0),
    {
        self.head_seg.len() == 0 && self.tail_seg.len() == 0
    }

    pub fn capacity(&self) -> (c: usize)
        ensures
            c == self.spec_capacity(),
    {
        self.cap
    }

    /// Prepend one value to the logical front.
    pub fn push_front(&mut self, value: T)
        requires
            old(self).wf(),
            old(self)@.len() < old(self).spec_capacity(),
        ensures
            final(self).wf(),
            final(self)@ == seq![value] + old(self)@,
            final(self).spec_capacity() == old(self).spec_capacity(),
            final(self).front_slice() == seq![value] + old(self).front_slice(),
            final(self).back_slice() == old(self).back_slice(),
    {
        self.head_seg.insert(0, value);
        proof {
            assert(final(self)@ =~= seq![value] + old(self)@);
            assert(final(self).front_slice() =~= seq![value] + old(self).front_slice());
        }
    }

    /// Append one value to the logical back.
    ///
    /// Reported placement mirrors a ring buffer: the very first value pushed
    /// to the back of an empty queue lands in the slot the front slice
    /// reports, because an empty ring buffer's head and tail coincide. Every
    /// later back push lands in the back slice. The logical order is appended
    /// to either way.
    pub fn push_back(&mut self, value: T)
        requires
            old(self).wf(),
            old(self)@.len() < old(self).spec_capacity(),
        ensures
            final(self).wf(),
            final(self)@ == old(self)@.push(value),
            final(self).spec_capacity() == old(self).spec_capacity(),
            old(self)@.len() == 0 ==> final(self).front_slice() == seq![value]
                && final(self).back_slice() == Seq::<T>::empty(),
            old(self)@.len() > 0 ==> final(self).front_slice() == old(self).front_slice()
                && final(self).back_slice() == old(self).back_slice().push(value),
    {
        if self.head_seg.len() == 0 && self.tail_seg.len() == 0 {
            self.head_seg.push(value);
            proof {
                assert(final(self)@ =~= old(self)@.push(value));
                assert(final(self).front_slice() =~= seq![value]);
            }
        } else {
            self.tail_seg.push(value);
            proof {
                assert(final(self)@ =~= old(self)@.push(value));
            }
        }
    }

    /// Remove and return the logical front value, if any.
    pub fn pop_front(&mut self) -> (r: Option<T>)
        requires
            old(self).wf(),
        ensures
            final(self).wf(),
            final(self).spec_capacity() == old(self).spec_capacity(),
            old(self)@.len() == 0 ==> r is None && final(self)@ == old(self)@,
            old(self)@.len() > 0 ==> r == Some(old(self)@.first()) && final(self)@ == old(self)@.drop_first(),
    {
        if self.head_seg.len() > 0 {
            let v = self.head_seg.remove(0);
            proof {
                assert(final(self)@ =~= old(self)@.drop_first());
            }
            Some(v)
        } else if self.tail_seg.len() > 0 {
            let v = self.tail_seg.remove(0);
            proof {
                assert(final(self)@ =~= old(self)@.drop_first());
                assert(old(self)@.first() == v);
            }
            Some(v)
        } else {
            None
        }
    }

    /// Remove and return the logical back value, if any.
    pub fn pop_back(&mut self) -> (r: Option<T>)
        requires
            old(self).wf(),
        ensures
            final(self).wf(),
            final(self).spec_capacity() == old(self).spec_capacity(),
            old(self)@.len() == 0 ==> r is None && final(self)@ == old(self)@,
            old(self)@.len() > 0 ==> r == Some(old(self)@.last()) && final(self)@ == old(self)@.drop_last(),
    {
        if self.tail_seg.len() > 0 {
            let v = self.tail_seg.pop();
            proof {
                assert(final(self)@ =~= old(self)@.drop_last());
            }
            v
        } else {
            let v = self.head_seg.pop();
            proof {
                assert(final(self)@ =~= if old(self)@.len() == 0 { old(self)@ } else { old(self)@.drop_last() });
            }
            v
        }
    }

    /// Move the wrapped-around run back behind the front run, so that the
    /// whole contents are reported in the front slice. The logical order is
    /// unchanged.
    pub fn make_contiguous(&mut self)
        requires
            old(self).wf(),
        ensures
            final(self).wf(),
            final(self)@ == old(self)@,
            final(self).spec_capacity() == old(self).spec_capacity(),
            final(self).front_slice() == old(self)@,
            final(self).back_slice() == Seq::<T>::empty(),
    {
        self.head_seg.append(&mut self.tail_seg);
    }

    /// Rotate the logical contents `mid` places to the left, leaving the
    /// result contiguous in the front slice.
    pub fn rotate_left(&mut self, mid: usize)
        requires
            old(self).wf(),
            mid <= old(self)@.len(),
        ensures
            final(self).wf(),
            final(self)@ == old(self)@.skip(mid as int) + old(self)@.take(mid as int),
            final(self).spec_capacity() == old(self).spec_capacity(),
            final(self).front_slice() == final(self)@,
            final(self).back_slice() == Seq::<T>::empty(),
    {
        self.head_seg.append(&mut self.tail_seg);
        let mut rotated = self.head_seg.split_off(mid);
        rotated.append(&mut self.head_seg);
        self.head_seg = rotated;
        proof {
            assert(final(self)@ =~= old(self)@.skip(mid as int) + old(self)@.take(mid as int));
        }
    }

    /// The two reported slices, in logical order: the front run, then the
    /// wrapped back run.
    pub fn as_slices(&self) -> (r: (&[T], &[T]))
        ensures
            r.0@ == self.front_slice(),
            r.1@ == self.back_slice(),
    {
        (self.head_seg.as_slice(), self.tail_seg.as_slice())
    }
}

} // verus!
