//! A sandboxed transaction engine for a minimal ledger: a key algebra with
//! wildcard and self-referential keys, a world ledger, a capability-based
//! permission store, an approval engine, a write aggregator and a phase-ordered
//! execution pipeline.
use vstd::prelude::*;

pub mod aggregate;
pub mod approval;
pub mod error;
pub mod instruction;
pub mod keys;
pub mod ledger;
pub mod permission;
pub mod pipeline;
pub mod tree;

verus! {

/// Adds two numbers whose sum fits in a `u64`.
pub fn add(left: u64, right: u64) -> (r: u64)
    requires
        left + right <= u64::MAX,
    ensures
        r == left + right,
{
    left + right
}

} // verus!
