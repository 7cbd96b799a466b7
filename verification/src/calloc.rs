//! The allocation-capability layer: a marker trait standing for an allocation
//! strategy, the default [`Global`] strategy, and the capacity-tracked buffer
//! types generic over it (in [`calloc_vec`]).
//!
//! The buffer types only require of the strategy "create with capacity, append
//! within the declared bound, pop from the end"; the strategy itself carries no
//! operations and is threaded through as a capability token.

use vstd::prelude::*;

pub mod calloc_vec;

pub use calloc_vec::Vec;
pub use calloc_vec::VecDeque;

verus! {

/// Capability token standing for an allocation strategy.
///
/// The buffer types in this crate are parameterized over an implementation of
/// this trait so that callers can pick a strategy; the strategy itself is
/// opaque to the buffer logic.
pub trait Allocator {

}

/// The default system allocation strategy.
#[derive(Clone, Copy, Debug)]
pub struct Global {}

impl Allocator for Global {

}

} // verus!
