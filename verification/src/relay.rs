//! What a bounded plane does when its bound is reached.

use vstd::prelude::*;

verus! {

/// Policy at the high-water mark.
#[derive(Debug, Clone, Copy, PartialEq, Eq, Structural)]
pub enum Overflow {
    /// Refuse, and let the producer retry.
    Block,
    /// Keep what is held, drop what arrives.
    DropNewest,
    /// Drop what is held, keep what arrives.
    DropOldest,
    /// Coalesce: the merge algebra is the bound.
    Conflate,
    /// Hand over to a durable tail; coalesces where there is none.
    Spill,
}

} // verus!
