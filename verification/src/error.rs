//! The error type shared by every fallible operation of the crate.

use vstd::prelude::*;

verus! {

/// Why an operation failed.
#[derive(Clone, Copy, Debug, PartialEq, Eq, Structural)]
pub enum HyperError {
    /// A malformed request: a port access of the wrong size, or a region that
    /// overlaps one already recorded.
    InvalidParam,
    /// The requested vCPU or device does not exist.
    NotFound,
    /// The page-frame allocator behind a nested page table ran out of memory.
    NoMemory,
    /// A nested page table refused an operation in its current state.
    BadState,
}

/// Result of a fallible operation.
pub type HyperResult<T = ()> = Result<T, HyperError>;

} // verus!
