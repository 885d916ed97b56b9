//! Addresses and page alignment.

use vstd::prelude::*;

verus! {

/// A guest physical address.
pub type GuestPhysAddr = usize;

/// A host physical address.
pub type HostPhysAddr = usize;

/// A host virtual address.
pub type HostVirtAddr = usize;

/// The size of a page, and the stride of every mapping.
pub const PAGE_SIZE: usize = 0x1000;

/// Whether `addr` is a multiple of the page size.
pub open spec fn spec_is_aligned(addr: usize) -> bool {
    addr % PAGE_SIZE == 0
}

/// Whether `addr` is a multiple of the page size.
#[verifier::when_used_as_spec(spec_is_aligned)]
pub fn is_aligned(addr: usize) -> (r: bool)
    ensures
        r == spec_is_aligned(addr),
{
    assert((addr & 0xfff) == 0 <==> addr % 0x1000 == 0) by (bit_vector);
    (addr & (PAGE_SIZE - 1)) == 0
}

} // verus!
