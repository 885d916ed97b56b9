//! The permissions of a mapping, as the page-table entry crate defines them.

use vstd::prelude::*;
use page_table_entry::MappingFlags;

verus! {

/// `page_table_entry::MappingFlags`, a set of permission and attribute bits.
/// Values of it are carried from a region to the page table and never looked
/// into.
#[verifier::external_type_specification]
#[verifier::external_body]
pub struct ExMappingFlags(page_table_entry::MappingFlags);

/// The flags that `MappingFlags::from_bits_truncate` makes of `bits`.
pub uninterp spec fn flags_from_bits(bits: usize) -> MappingFlags;

/// Bit of `MappingFlags::READ`.
pub const FLAG_READ: usize = 1;

/// Bit of `MappingFlags::WRITE`.
pub const FLAG_WRITE: usize = 2;

/// Bit of `MappingFlags::EXECUTE`.
pub const FLAG_EXECUTE: usize = 4;

/// Bit of `MappingFlags::DEVICE`.
pub const FLAG_DEVICE: usize = 16;

/// Calls `MappingFlags::from_bits_truncate`, which keeps the bits of `bits`
/// that name a flag and drops the others. The contract only names the result.
#[verifier::external_body]
pub(crate) fn mapping_flags(bits: usize) -> (flags: MappingFlags)
    ensures
        flags == flags_from_bits(bits),
{
    MappingFlags::from_bits_truncate(bits)
}

} // verus!
