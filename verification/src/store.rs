//! Storage abstractions: the [`Lifos`] trait for two LIFO stacks sharing one
//! fixed-capacity allocation, and its deque-backed implementation
//! ([`lifos_vec`]).

use vstd::prelude::*;

pub mod lifos_vec;

verus! {

/// Two LIFO stacks, left and right, growing toward each other in one
/// fixed-capacity storage. Growth past the shared capacity is excluded by
/// precondition, so implementations never reallocate.
pub trait Lifos<T>: Sized {
    /// The storage is in a usable state.
    spec fn inv(&self) -> bool;

    /// The left stack, oldest value first.
    spec fn left_seq(&self) -> Seq<T>;

    /// The right stack, most recently pushed value first.
    spec fn right_seq(&self) -> Seq<T>;

    /// The fixed total capacity shared by the two stacks.
    spec fn total_capacity(&self) -> usize;

    /// Whether the very first push must go to the left for the backing
    /// storage to lay the two sides out as declared.
    fn has_to_push_left_first() -> bool;

    /// Push onto the left stack; needs one slot free under the shared
    /// capacity.
    fn push_left(&mut self, value: T)
        requires
            old(self).inv(),
            old(self).left_seq().len() + old(self).right_seq().len() < old(
                self,
            ).total_capacity(),
        ensures
            final(self).inv(),
            final(self).left_seq() == old(self).left_seq().push(value),
            final(self).right_seq() == old(self).right_seq(),
            final(self).total_capacity() == old(self).total_capacity(),
    ;

    /// Push onto the right stack; needs one slot free under the shared
    /// capacity.
    fn push_right(&mut self, value: T)
        requires
            old(self).inv(),
            old(self).left_seq().len() + old(self).right_seq().len() < old(
                self,
            ).total_capacity(),
        ensures
            final(self).inv(),
            final(self).right_seq() == seq![value] + old(self).right_seq(),
            final(self).left_seq() == old(self).left_seq(),
            final(self).total_capacity() == old(self).total_capacity(),
    ;

    /// How many items on the right.
    fn right(&self) -> (n: usize)
        requires
            self.inv(),
        ensures
            n == self.right_seq().len(),
    ;

    /// How many items on the left.
    fn left(&self) -> (n: usize)
        requires
            self.inv(),
        ensures
            n == self.left_seq().len(),
    ;
}

} // verus!
