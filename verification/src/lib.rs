//! A recursive, comparison-based sort that reuses the caller's buffers at
//! every recursion depth, together with the buffer-splitting machinery that
//! makes the reuse possible: a capacity-bounded double-ended append buffer
//! ([`lifos::FixedDequeLifos`]) and a guard that splits one such buffer into
//! two independently growable halves and later rejoins them
//! ([`cross::CrossVecPairGuard`]).
//!
//! Recursion depth of the sort is bounded only by the partition depth, which
//! with the fixed last-element pivot policy is linear in the input length in
//! the worst case.

pub mod calloc;
pub mod consume;
pub mod cross;
pub mod lifos;
pub mod sort;
pub mod store;
