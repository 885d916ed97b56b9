//! What an address space asks of the nested page table behind it.

use vstd::prelude::*;
use page_table_entry::MappingFlags;
use crate::addr::{is_aligned, GuestPhysAddr, HostPhysAddr};
use crate::error::{HyperError, HyperResult};

verus! {

/// What a nested page table translates: each mapped guest page, by its
/// address, with the host frame it goes to and its flags.
pub type PageMappings = Map<GuestPhysAddr, (HostPhysAddr, MappingFlags)>;

/// One operation that a table refused: whether it was to unmap, the guest
/// page that it was about, and the error that the table answered.
pub struct Refusal {
    pub unmap: bool,
    pub gpa: GuestPhysAddr,
    pub error: HyperError,
}

/// A nested page table, page by page. The platform implements it; an address
/// space owns one and relies on these contracts, which nothing here proves
/// of an implementation.
///
/// `mappings`, `root` and `refusals` are ghost: they say what the table holds
/// and what it has answered, and are never run. Each has a body so that an
/// implementation outside verified code can leave it out; of such an
/// implementation nothing is proved in any case. Inside verified code an
/// implementation gives its own.
pub trait GuestPageTableTrait: Sized {
    /// The pages that the table translates.
    open spec fn mappings(&self) -> PageMappings {
        PageMappings::empty()
    }

    /// The host physical address of the top-level table. It stays the same
    /// for as long as the table lives.
    open spec fn root(&self) -> HostPhysAddr {
        0
    }

    /// The operations that the table has refused so far, oldest first. It
    /// is through this record that a caller's contract says whether the
    /// table refused anything, and that an error handed on is the table's.
    open spec fn refusals(&self) -> Seq<Refusal> {
        Seq::empty()
    }

    /// An empty table. May fail for want of memory.
    fn new() -> (r: HyperResult<Self>)
        ensures
            r matches Ok(table) ==> table.mappings() == PageMappings::empty(),
    ;

    /// Maps the guest page at `gpa` to the host frame at `hpa`. On failure
    /// no translation has changed, and the refusal is on record.
    fn map(&mut self, gpa: GuestPhysAddr, hpa: HostPhysAddr, flags: MappingFlags) -> (r:
        HyperResult)
        requires
            is_aligned(gpa),
            is_aligned(hpa),
        ensures
            final(self).root() == old(self).root(),
            r is Ok ==> final(self).mappings() == old(self).mappings().insert(gpa, (hpa, flags)),
            r is Ok ==> final(self).refusals() == old(self).refusals(),
            r is Err ==> final(self).mappings() == old(self).mappings(),
            r is Err ==> final(self).refusals() == old(self).refusals().push(
                Refusal { unmap: false, gpa, error: r->Err_0 },
            ),
    ;

    /// Removes the translation of the guest page at `gpa`. On failure no
    /// translation has changed, and the refusal is on record.
    fn unmap(&mut self, gpa: GuestPhysAddr) -> (r: HyperResult)
        requires
            is_aligned(gpa),
        ensures
            final(self).root() == old(self).root(),
            r is Ok ==> final(self).mappings() == old(self).mappings().remove(gpa),
            r is Ok ==> final(self).refusals() == old(self).refusals(),
            r is Err ==> final(self).mappings() == old(self).mappings(),
            r is Err ==> final(self).refusals() == old(self).refusals().push(
                Refusal { unmap: true, gpa, error: r->Err_0 },
            ),
    ;

    /// The host physical address of the top-level table.
    fn root_paddr(&self) -> (r: HostPhysAddr)
        ensures
            r == self.root(),
    ;
}

} // verus!
