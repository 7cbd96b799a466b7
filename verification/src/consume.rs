//! The consumer side of the sort: a callback object that receives the sorted
//! values one by one and decides after each whether to go on.
//!
//! A consumer carries a log of the values it has received, and a fixed
//! acceptance rule over that log. The rule is fixed for the lifetime of the
//! consumer — receiving values must not change it — which is what lets the
//! sort's contract say exactly where delivery stops.

use vstd::prelude::*;

verus! {

/// Receives values in sorted order, one call per value.
///
/// `seq_index` is 0-based and increases by exactly 1 per call; the caller
/// must pass the current log length, so a consumer that starts empty sees
/// the indices `0, 1, 2, ...` with no gaps or repeats.
pub trait Consumer<T>: Sized {
    /// The values received so far, in the order they were received.
    spec fn log(&self) -> Seq<T>;

    /// The acceptance rule: whether the call that brought the log to `log`
    /// asks for more values.
    spec fn accepts(&self, log: Seq<T>) -> bool;

    /// Receive one value. Returns whether to go on, as given by the
    /// acceptance rule on the grown log; the rule itself is unchanged.
    fn consume(&mut self, seq_index: usize, value: T) -> (r: bool)
        requires
            seq_index == old(self).log().len(),
        ensures
            final(self).log() == old(self).log().push(value),
            r == old(self).accepts(old(self).log().push(value)),
            forall|l: Seq<T>| final(self).accepts(l) == old(self).accepts(l),
    ;
}

/// A consumer that records every `(seq_index, value)` pair and always asks
/// for more.
pub struct CollectAll<T> {
    seen: std::vec::Vec<(usize, T)>,
}

impl<T> CollectAll<T> {
    pub fn new() -> (c: Self)
        ensures
            c.log() == Seq::<T>::empty(),
    {
        CollectAll { seen: std::vec::Vec::new() }
    }

    /// The recorded `(seq_index, value)` pairs, in call order.
    pub fn into_seen(self) -> (r: std::vec::Vec<(usize, T)>)
        ensures
            r@.map_values(|p: (usize, T)| p.1) == self.log(),
    {
        self.seen
    }
}

impl<T> Consumer<T> for CollectAll<T> {
    closed spec fn log(&self) -> Seq<T> {
        self.seen@.map_values(|p: (usize, T)| p.1)
    }

    open spec fn accepts(&self, log: Seq<T>) -> bool {
        true
    }

    fn consume(&mut self, seq_index: usize, value: T) -> (r: bool) {
        self.seen.push((seq_index, value));
        proof {
            assert(self.log() =~= old(self).log().push(value));
        }
        true
    }
}

/// A consumer that records every `(seq_index, value)` pair and stops asking
/// once it holds `limit` values: the call that brings the log to `limit`
/// values returns false.
pub struct CollectUpTo<T> {
    seen: std::vec::Vec<(usize, T)>,
    limit: usize,
}

impl<T> CollectUpTo<T> {
    pub fn new(limit: usize) -> (c: Self)
        ensures
            c.log() == Seq::<T>::empty(),
            c.spec_limit() == limit,
    {
        CollectUpTo { seen: std::vec::Vec::new(), limit }
    }

    pub closed spec fn spec_limit(&self) -> usize {
        self.limit
    }

    /// The recorded `(seq_index, value)` pairs, in call order.
    pub fn into_seen(self) -> (r: std::vec::Vec<(usize, T)>)
        ensures
            r@.map_values(|p: (usize, T)| p.1) == self.log(),
    {
        self.seen
    }
}

impl<T> Consumer<T> for CollectUpTo<T> {
    closed spec fn log(&self) -> Seq<T> {
        self.seen@.map_values(|p: (usize, T)| p.1)
    }

    open spec fn accepts(&self, log: Seq<T>) -> bool {
        log.len() < self.spec_limit()
    }

    fn consume(&mut self, seq_index: usize, value: T) -> (r: bool) {
        self.seen.push((seq_index, value));
        proof {
            assert(self.log() =~= old(self).log().push(value));
        }
        self.seen.len() < self.limit
    }
}

} // verus!
