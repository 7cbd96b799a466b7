//! Crossing one fixed buffer's storage into two independent buffers.
//!
//! A [`CrossVecPairGuard`] is built from a [`FixedDequeLifos`]; it splits the
//! two stacks into a pair of vectors over the same storage and enforces a
//! strict check-out / check-in protocol: the pair is taken out exactly once
//! ([`CrossVecPairGuard::temp_take`]) and must be handed back
//! ([`CrossVecPairGuard::move_back_join_into`]), which folds the two halves
//! back into a single buffer of the original total capacity. The protocol is
//! a three-state machine — not taken yet, taken out, moved back — and every
//! transition consumes or requires the right state, so verified callers
//! cannot run it out of order; the terminal transition consumes the guard by
//! value.

use vstd::prelude::*;

use core::mem;

use crate::calloc::Vec;
use crate::lifos::FixedDequeLifos;

verus! {

/// The growable-buffer type handed out and taken back by the guard.
pub type CrossVec<T> = Vec<T>;

/// The front and back halves (in this order) of one crossed buffer.
///
/// Each half is a restricted vector: it must not be grown past its declared
/// capacity, which the halves' capacities share with the original buffer.
#[derive(Debug)]
pub struct CrossVecPair<T>(pub CrossVec<T>, pub CrossVec<T>);

/// Where a guard stands in the check-out / check-in protocol.
#[derive(Debug)]
pub enum CrossVecPairGuardState<T> {
    /// The pair has not been lent out yet; the guard still holds it.
    NotTakenYet(CrossVecPair<T>),
    /// The pair is lent out and must come back.
    TakenOut,
    /// Terminal: the pair was folded back into one buffer.
    MovedBack,
}

impl<T> CrossVecPairGuardState<T> {
    pub fn is_not_taken_yet(&self) -> (r: bool)
        ensures
            r == (self is NotTakenYet),
    {
        match self {
            CrossVecPairGuardState::NotTakenYet(_) => true,
            _ => false,
        }
    }

    pub fn is_taken_out(&self) -> (r: bool)
        ensures
            r == (self is TakenOut),
    {
        match self {
            CrossVecPairGuardState::TakenOut => true,
            _ => false,
        }
    }

    pub fn is_moved_back(&self) -> (r: bool)
        ensures
            r == (self is MovedBack),
    {
        match self {
            CrossVecPairGuardState::MovedBack => true,
            _ => false,
        }
    }
}

/// Splits one [`FixedDequeLifos`] into a pair of vectors and folds them back.
///
/// The guard captures the stack lengths and the total capacity at creation.
/// Each half's declared capacity is its own side plus all the slack — the
/// whole buffer minus the other side's captured length — so the two halves
/// may grow toward each other; keeping their combined length within the
/// total capacity is the caller's obligation and is required at check-in.
pub struct CrossVecPairGuard<T> {
    state: CrossVecPairGuardState<T>,
    orig_front_len: usize,
    orig_back_len: usize,
    /// Capacity of the original backing buffer; potentially more than the
    /// two captured side lengths together.
    full_capacity: usize,
}

impl<T> CrossVecPairGuard<T> {
    /// Where the guard stands in the protocol.
    pub closed spec fn spec_state(&self) -> CrossVecPairGuardState<T> {
        self.state
    }

    /// Front-side length captured at creation.
    pub closed spec fn spec_front_len(&self) -> usize {
        self.orig_front_len
    }

    /// Back-side length captured at creation.
    pub closed spec fn spec_back_len(&self) -> usize {
        self.orig_back_len
    }

    /// Total capacity captured at creation.
    pub closed spec fn spec_full_capacity(&self) -> usize {
        self.full_capacity
    }

    /// Declared capacity of the front half: everything but the captured back
    /// side.
    pub open spec fn front_handle_capacity(&self) -> int {
        self.spec_full_capacity() - self.spec_back_len()
    }

    /// Declared capacity of the back half: everything but the captured front
    /// side.
    pub open spec fn back_handle_capacity(&self) -> int {
        self.spec_full_capacity() - self.spec_front_len()
    }

    /// The captured lengths fit the capacity, and while the pair is still
    /// held it matches the captured bookkeeping.
    pub closed spec fn wf(&self) -> bool {
        &&& self.orig_front_len + self.orig_back_len <= self.full_capacity
        &&& match self.state {
            CrossVecPairGuardState::NotTakenYet(pair) => {
                &&& pair.0.wf()
                &&& pair.1.wf()
                &&& pair.0@.len() == self.orig_front_len
                &&& pair.1@.len() == self.orig_back_len
                &&& pair.0.spec_capacity() == self.front_handle_capacity()
                &&& pair.1.spec_capacity() == self.back_handle_capacity()
            },
            _ => true,
        }
    }

    /// Build a guard from the two stacks of `fixed_deque_lifos`, splitting
    /// its storage into the front half and the back half.
    ///
    /// Once built, the pair must be taken out with [`Self::temp_take`] and
    /// later handed back with [`Self::move_back_join_into`], whether or not
    /// it is used in between.
    pub fn new_from_lifos(fixed_deque_lifos: FixedDequeLifos<T>) -> (g: Self)
        requires
            fixed_deque_lifos.wf(),
        ensures
            g.wf(),
            g.spec_state() is NotTakenYet,
            g.spec_front_len() == fixed_deque_lifos.spec_front(),
            g.spec_back_len() == fixed_deque_lifos.spec_back(),
            g.spec_full_capacity() == fixed_deque_lifos.spec_capacity(),
            g.spec_state() matches CrossVecPairGuardState::NotTakenYet(pair)
                && pair.0@ == fixed_deque_lifos.front_seq()
                && pair.1@ == fixed_deque_lifos.back_seq(),
    {
        proof {
            fixed_deque_lifos.lemma_wf();
        }
        let front_len = fixed_deque_lifos.front();
        let back_len = fixed_deque_lifos.back();
        let mut deque = fixed_deque_lifos.into_vec_deque();
        let full_capacity = deque.capacity();
        deque.make_contiguous();
        let (mut front_items, _tail, _cap) = deque.into_segments();
        let back_items = front_items.split_off(front_len);
        proof {
            assert(front_items@ =~= fixed_deque_lifos.front_seq());
            assert(back_items@ =~= fixed_deque_lifos.back_seq());
        }
        let front_half = Vec::from_parts(front_items, full_capacity - back_len);
        let back_half = Vec::from_parts(back_items, full_capacity - front_len);
        CrossVecPairGuard {
            state: CrossVecPairGuardState::NotTakenYet(CrossVecPair(front_half, back_half)),
            orig_front_len: front_len,
            orig_back_len: back_len,
            full_capacity,
        }
    }

    /// Take the pair out, exactly once. The two halves may then be grown and
    /// shrunk independently, each within its declared capacity and jointly
    /// within the original total capacity.
    pub fn temp_take(&mut self) -> (pair: CrossVecPair<T>)
        requires
            old(self).wf(),
            old(self).spec_state() is NotTakenYet,
        ensures
            final(self).wf(),
            final(self).spec_state() is TakenOut,
            final(self).spec_front_len() == old(self).spec_front_len(),
            final(self).spec_back_len() == old(self).spec_back_len(),
            final(self).spec_full_capacity() == old(self).spec_full_capacity(),
            old(self).spec_state() matches CrossVecPairGuardState::NotTakenYet(held) && pair == held,
            pair.0.wf(),
            pair.1.wf(),
            pair.0@.len() == old(self).spec_front_len(),
            pair.1@.len() == old(self).spec_back_len(),
            pair.0.spec_capacity() == old(self).front_handle_capacity(),
            pair.1.spec_capacity() == old(self).back_handle_capacity(),
    {
        let mut taken = CrossVecPairGuardState::TakenOut;
        mem::swap(&mut self.state, &mut taken);
        match taken {
            CrossVecPairGuardState::NotTakenYet(pair) => pair,
            _ => vstd::pervasive::unreached(),
        }
    }

    /// Hand the pair back and fold the two halves into a single buffer: the
    /// front half's contents, then the back half's. The result has the
    /// original total capacity captured at creation — not merely the sum of
    /// the two halves' lengths — so it can serve as a full replacement for
    /// the buffer the guard was built from.
    ///
    /// Consuming the guard by value is the terminal protocol transition:
    /// after this call no further check-out can happen.
    pub fn move_back_join_into(self, pair: CrossVecPair<T>) -> (v: Vec<T>)
        requires
            self.wf(),
            self.spec_state() is TakenOut,
            pair.0.wf(),
            pair.1.wf(),
            pair.0.spec_capacity() == self.front_handle_capacity(),
            pair.1.spec_capacity() == self.back_handle_capacity(),
            pair.0@.len() + pair.1@.len() <= self.spec_full_capacity(),
        ensures
            v.wf(),
            v@ == pair.0@ + pair.1@,
            v.spec_capacity() == self.spec_full_capacity(),
    {
        let CrossVecPair(front_half, back_half) = pair;
        let (mut front_items, _front_cap) = front_half.into_parts();
        let (mut back_items, _back_cap) = back_half.into_parts();
        front_items.append(&mut back_items);
        Vec::from_parts(front_items, self.full_capacity)
    }
}

} // verus!
