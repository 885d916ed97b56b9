//! Guest physical memory: regions that map guest ranges onto host ranges, and
//! the address space that owns a set of them together with the nested page
//! table behind them.

use vstd::prelude::*;
use page_table_entry::MappingFlags;
use crate::addr::{is_aligned, spec_is_aligned, GuestPhysAddr, HostPhysAddr, PAGE_SIZE};
use crate::error::{HyperError, HyperResult};
use crate::page_table::{GuestPageTableTrait, PageMappings, Refusal};

verus! {

/// The address that an integer stands for once it has wrapped round the
/// address space; meant for integers less than one address space away.
pub open spec fn wrap_addr(x: int) -> usize {
    if x < 0 {
        (x + usize::MAX + 1) as usize
    } else if x > usize::MAX {
        (x - usize::MAX - 1) as usize
    } else {
        x as usize
    }
}

/// What a region is: a guest range, its permissions, and the host address
/// that its first guest address goes to.
pub struct RegionModel {
    pub start: GuestPhysAddr,
    pub size: usize,
    pub flags: MappingFlags,
    pub host_start: HostPhysAddr,
}

impl RegionModel {
    /// One past the last guest address of the region.
    pub open spec fn end(self) -> int {
        self.start + self.size
    }

    /// Whether `gpa` lies in the region.
    pub open spec fn contains(self, gpa: GuestPhysAddr) -> bool {
        self.start <= gpa < self.end()
    }

    /// Whether the two half-open guest ranges share an address.
    pub open spec fn overlaps(self, other: RegionModel) -> bool {
        self.start < other.end() && other.start < self.end()
    }

    /// The host address of `gpa`: as far from the region's host start as
    /// `gpa` is from its guest start, wrapping round the address space.
    pub open spec fn target(self, gpa: GuestPhysAddr) -> HostPhysAddr {
        wrap_addr(self.host_start + gpa - self.start)
    }

    /// The end of the guest range is an address.
    pub open spec fn in_bounds(self) -> bool {
        self.end() <= usize::MAX
    }

    /// Start, size and host start are page-aligned and the guest range ends
    /// within the address space.
    pub open spec fn wf(self) -> bool {
        &&& spec_is_aligned(self.start)
        &&& spec_is_aligned(self.size)
        &&& spec_is_aligned(self.host_start)
        &&& self.in_bounds()
    }

    /// The number of pages in the region.
    pub open spec fn pages(self) -> nat {
        (self.size / PAGE_SIZE) as nat
    }

    /// The address of the region's page `k`, counting from zero.
    pub open spec fn page(self, k: nat) -> GuestPhysAddr {
        (self.start + k * PAGE_SIZE) as usize
    }

    /// Whether `gpa` is the address of one of the region's first `k` pages.
    pub open spec fn has_page_below(self, gpa: GuestPhysAddr, k: nat) -> bool {
        &&& spec_is_aligned(gpa)
        &&& self.start <= gpa < self.start + k * PAGE_SIZE
    }

    /// Whether `gpa` is the address of one of the region's pages.
    pub open spec fn has_page(self, gpa: GuestPhysAddr) -> bool {
        self.has_page_below(gpa, self.pages())
    }

    /// `base` after the region's first `k` pages were mapped over it.
    pub open spec fn mapped_over(self, base: PageMappings, k: nat) -> PageMappings {
        Map::new(
            |gpa: GuestPhysAddr| base.contains_key(gpa) || self.has_page_below(gpa, k),
            |gpa: GuestPhysAddr|
                if self.has_page_below(gpa, k) {
                    (self.target(gpa), self.flags)
                } else {
                    base[gpa]
                },
        )
    }

    /// `base` after the region's first `k` pages were unmapped from it.
    pub open spec fn unmapped_from(self, base: PageMappings, k: nat) -> PageMappings {
        Map::new(
            |gpa: GuestPhysAddr| base.contains_key(gpa) && !self.has_page_below(gpa, k),
            |gpa: GuestPhysAddr| base[gpa],
        )
    }
}

/// The address space is a whole number of pages.
pub proof fn lemma_address_space_is_paged()
    ensures
        (usize::MAX + 1) % (PAGE_SIZE as int) == 0,
{
    assert(usize::BITS == 32 || usize::BITS == 64);
    assert(usize::MAX == 0xffff_ffff || usize::MAX == 0xffff_ffff_ffff_ffff);
}

/// Within a region the host address of a page-aligned guest address is
/// page-aligned.
pub proof fn lemma_target_aligned(region: RegionModel, gpa: GuestPhysAddr)
    requires
        region.wf(),
        spec_is_aligned(gpa),
    ensures
        spec_is_aligned(region.target(gpa)),
{
    let x = region.host_start + gpa - region.start;
    assert(x % 4096 == 0);
    assert(usize::BITS == 32 || usize::BITS == 64);
    if usize::MAX == 0xffff_ffff {
        assert(wrap_addr(x) % 4096 == 0);
    } else {
        assert(usize::MAX == 0xffff_ffff_ffff_ffff);
        assert(wrap_addr(x) % 4096 == 0);
    }
}

/// A region is made of whole pages and of nothing else: where a region
/// stands for the numbers it was asked with, each of the three is a multiple
/// of the page size. No region stands for numbers that had to be rounded.
pub proof fn lemma_region_is_never_rounded(
    start_gpa: GuestPhysAddr,
    start_hpa: HostPhysAddr,
    size: usize,
    region: RegionModel,
)
    requires
        region.wf(),
        region.start == start_gpa,
        region.host_start == start_hpa,
        region.size == size,
    ensures
        spec_is_aligned(start_gpa),
        spec_is_aligned(start_hpa),
        spec_is_aligned(size),
{
}

/// Two regions overlap whichever of them is asked.
pub proof fn lemma_overlap_symmetric(a: RegionModel, b: RegionModel)
    ensures
        a.overlaps(b) == b.overlaps(a),
{
}

/// Inside a region whose host range does not wrap, a guest address goes to
/// the host address as far from the host start as it is from the guest start.
pub proof fn lemma_target_is_offset(region: RegionModel, gpa: GuestPhysAddr)
    requires
        region.contains(gpa),
        region.host_start + (gpa - region.start) <= usize::MAX,
    ensures
        region.target(gpa) == region.host_start + (gpa - region.start),
{
}

/// How a region finds the host address of a guest address.
#[derive(Debug)]
enum Mapper {
    /// The host address is the guest address minus this offset, wrapping.
    Offset(usize),
}

/// A request for a mapping, as plain numbers.
#[derive(Clone, Copy, Debug)]
pub struct GuestMemoryRegion {
    pub gpa: GuestPhysAddr,
    pub hpa: HostPhysAddr,
    pub size: usize,
    pub flags: MappingFlags,
}

impl GuestMemoryRegion {
    /// The region that the request describes.
    pub open spec fn model(self) -> RegionModel {
        RegionModel { start: self.gpa, size: self.size, flags: self.flags, host_start: self.hpa }
    }

    /// Whether a region can be made of the request: both addresses and the
    /// size are page-aligned and the guest range ends within the address
    /// space.
    pub open spec fn valid(self) -> bool {
        &&& spec_is_aligned(self.gpa)
        &&& spec_is_aligned(self.hpa)
        &&& spec_is_aligned(self.size)
        &&& self.gpa + self.size <= usize::MAX
    }

    /// Whether a region can be made of the request.
    pub fn is_valid(&self) -> (r: bool)
        ensures
            r == self.valid(),
    {
        is_aligned(self.gpa) && is_aligned(self.hpa) && is_aligned(self.size) && self.size
            <= usize::MAX - self.gpa
    }
}

/// The guest range `[start, start + size)` with its permissions and the way
/// to its host addresses. Contracts speak of a region through its view;
/// `start()`, `size()` and `flags()` read the public fields for code that
/// is verified against those contracts.
#[derive(Debug)]
pub struct MapRegion {
    pub start: GuestPhysAddr,
    pub size: usize,
    pub flags: MappingFlags,
    mapper: Mapper,
}

impl View for MapRegion {
    type V = RegionModel;

    closed spec fn view(&self) -> RegionModel {
        RegionModel {
            start: self.start,
            size: self.size,
            flags: self.flags,
            host_start: match self.mapper {
                Mapper::Offset(off) => self.start.wrapping_sub(off),
            },
        }
    }
}

impl MapRegion {
    /// The first guest address of the region: the field `start`, for code
    /// that reasons about the region through its view.
    pub fn start(&self) -> (start: GuestPhysAddr)
        ensures
            start == self@.start,
    {
        self.start
    }

    /// The size of the region in bytes: the field `size`.
    pub fn size(&self) -> (size: usize)
        ensures
            size == self@.size,
    {
        self.size
    }

    /// The permissions of the region: the field `flags`.
    pub fn flags(&self) -> (flags: MappingFlags)
        ensures
            flags == self@.flags,
    {
        self.flags
    }

    /// A region that maps `[start_gpa, start_gpa + size)` onto the host range
    /// that starts at `start_hpa`. The three numbers are multiples of the
    /// page size and are kept as they are given; none is ever rounded. The
    /// region is well-formed, and so fit to be mapped, where its guest range
    /// ends within the address space.
    pub fn new_offset(
        start_gpa: GuestPhysAddr,
        start_hpa: HostPhysAddr,
        size: usize,
        flags: MappingFlags,
    ) -> (region: Self)
        requires
            is_aligned(start_gpa),
            is_aligned(start_hpa),
            is_aligned(size),
        ensures
            region@ == (RegionModel { start: start_gpa, size, flags, host_start: start_hpa }),
            region@.wf() <==> start_gpa + size <= usize::MAX,
    {
        let offset = start_gpa.wrapping_sub(start_hpa);
        Self { start: start_gpa, size, flags, mapper: Mapper::Offset(offset) }
    }

    /// As `new_offset`, for numbers that were not checked: refuses what is
    /// not page-aligned and a guest range that leaves the address space.
    pub fn checked_new_offset(
        start_gpa: GuestPhysAddr,
        start_hpa: HostPhysAddr,
        size: usize,
        flags: MappingFlags,
    ) -> (r: HyperResult<Self>)
        ensures
            r is Ok <==> is_aligned(start_gpa) && is_aligned(start_hpa) && is_aligned(size)
                && start_gpa + size <= usize::MAX,
            r is Err ==> r->Err_0 == HyperError::InvalidParam,
            r is Ok ==> r->Ok_0@.wf(),
            r is Ok ==> r->Ok_0@ == (RegionModel {
                start: start_gpa,
                size,
                flags,
                host_start: start_hpa,
            }),
    {
        if !is_aligned(start_gpa) || !is_aligned(start_hpa) || !is_aligned(size) {
            return Err(HyperError::InvalidParam);
        }
        if size > usize::MAX - start_gpa {
            return Err(HyperError::InvalidParam);
        }
        Ok(Self::new_offset(start_gpa, start_hpa, size, flags))
    }

    /// The region that a request describes.
    pub fn from(r: GuestMemoryRegion) -> (region: Self)
        requires
            is_aligned(r.gpa),
            is_aligned(r.hpa),
            is_aligned(r.size),
        ensures
            region@ == r.model(),
            region@.wf() <==> r.valid(),
    {
        Self::new_offset(r.gpa, r.hpa, r.size, r.flags)
    }

    /// Whether the two guest ranges share an address.
    pub fn is_overlap_with(&self, other: &Self) -> (r: bool)
        requires
            self@.in_bounds(),
            other@.in_bounds(),
        ensures
            r == self@.overlaps(other@),
    {
        let s0 = self.start;
        let e0 = s0 + self.size;
        let s1 = other.start;
        let e1 = s1 + other.size;
        !(e0 <= s1 || e1 <= s0)
    }

    /// The host address of `gpa`.
    pub fn target(&self, gpa: GuestPhysAddr) -> (hpa: HostPhysAddr)
        ensures
            hpa == self@.target(gpa),
    {
        match self.mapper {
            Mapper::Offset(off) => gpa.wrapping_sub(off),
        }
    }

    /// Maps the region into `npt` page by page, in ascending order, and stops
    /// at the first page that the table refuses, with the table's error. The
    /// pages before it stay mapped. The table is asked for nothing else: it
    /// has refused nothing on success, and that one page on failure.
    pub fn map_to<T: GuestPageTableTrait>(&self, npt: &mut T) -> (r: HyperResult)
        requires
            self@.wf(),
        ensures
            final(npt).root() == old(npt).root(),
            r is Ok ==> final(npt).mappings() == self@.mapped_over(
                old(npt).mappings(),
                self@.pages(),
            ),
            r is Ok ==> final(npt).refusals() == old(npt).refusals(),
            r is Err ==> final(npt).refusals().len() == old(npt).refusals().len() + 1,
            r is Err ==> exists|k: nat|
                k < self@.pages() && final(npt).mappings() == #[trigger] self@.mapped_over(
                    old(npt).mappings(),
                    k,
                ) && final(npt).refusals() == old(npt).refusals().push(
                    Refusal { unmap: false, gpa: self@.page(k), error: r->Err_0 },
                ),
    {
        let mut start = self.start;
        let end = start + self.size;
        let ghost mut k: nat = 0;
        proof {
            assert(self@.mapped_over(old(npt).mappings(), 0) =~= old(npt).mappings());
        }
        while start < end
            invariant
                self@.wf(),
                end == self@.start + self@.size,
                start == self@.start + k * PAGE_SIZE,
                start <= end,
                k <= self@.pages(),
                npt.root() == old(npt).root(),
                npt.refusals() == old(npt).refusals(),
                npt.mappings() == self@.mapped_over(old(npt).mappings(), k),
            decreases end - start,
        {
            let target = self.target(start);
            proof {
                lemma_target_aligned(self@, start);
            }
            match npt.map(start, target, self.flags) {
                Ok(_) => {},
                Err(e) => {
                    return Err(e);
                },
            }
            proof {
                assert(npt.mappings() =~= self@.mapped_over(old(npt).mappings(), k + 1));
                k = k + 1;
            }
            start += PAGE_SIZE;
        }
        Ok(())
    }

    /// Unmaps the region from `npt` page by page, in ascending order, and
    /// stops at the first page that the table refuses, with the table's
    /// error. The pages before it stay unmapped. The table has refused
    /// nothing on success, and that one page on failure.
    pub fn unmap_to<T: GuestPageTableTrait>(&self, npt: &mut T) -> (r: HyperResult)
        requires
            self@.wf(),
        ensures
            final(npt).root() == old(npt).root(),
            r is Ok ==> final(npt).mappings() == self@.unmapped_from(
                old(npt).mappings(),
                self@.pages(),
            ),
            r is Ok ==> final(npt).refusals() == old(npt).refusals(),
            r is Err ==> final(npt).refusals().len() == old(npt).refusals().len() + 1,
            r is Err ==> exists|k: nat|
                k < self@.pages() && final(npt).mappings() == #[trigger] self@.unmapped_from(
                    old(npt).mappings(),
                    k,
                ) && final(npt).refusals() == old(npt).refusals().push(
                    Refusal { unmap: true, gpa: self@.page(k), error: r->Err_0 },
                ),
    {
        let mut start = self.start;
        let end = start + self.size;
        let ghost mut k: nat = 0;
        proof {
            assert(self@.unmapped_from(old(npt).mappings(), 0) =~= old(npt).mappings());
        }
        while start < end
            invariant
                self@.wf(),
                end == self@.start + self@.size,
                start == self@.start + k * PAGE_SIZE,
                start <= end,
                k <= self@.pages(),
                npt.root() == old(npt).root(),
                npt.refusals() == old(npt).refusals(),
                npt.mappings() == self@.unmapped_from(old(npt).mappings(), k),
            decreases end - start,
        {
            match npt.unmap(start) {
                Ok(_) => {},
                Err(e) => {
                    return Err(e);
                },
            }
            proof {
                assert(npt.mappings() =~= self@.unmapped_from(old(npt).mappings(), k + 1));
                k = k + 1;
            }
            start += PAGE_SIZE;
        }
        Ok(())
    }
}

/// Whether some region of `regions` shares a guest address with `region`.
pub open spec fn conflicts(regions: Seq<RegionModel>, region: RegionModel) -> bool {
    exists|i: int| 0 <= i < regions.len() && (#[trigger] regions[i]).overlaps(region)
}

/// Whether `gpa` is the address of a page of some region of `regions`.
pub open spec fn covered(regions: Seq<RegionModel>, gpa: GuestPhysAddr) -> bool {
    exists|i: int| 0 <= i < regions.len() && (#[trigger] regions[i]).has_page(gpa)
}

/// Every region is well-formed and not empty, and each ends where or before
/// the next begins: ascending by start, no two sharing an address.
pub open spec fn ordered(regions: Seq<RegionModel>) -> bool {
    &&& forall|i: int| 0 <= i < regions.len() ==> (#[trigger] regions[i]).wf() && regions[i].size > 0
    &&& forall|i: int, j: int|
        0 <= i < j < regions.len() ==> (#[trigger] regions[i]).end() <= (#[trigger] regions[j]).start
}

/// Every page of every region is translated as its region says.
pub open spec fn translated(regions: Seq<RegionModel>, mappings: PageMappings) -> bool {
    forall|i: int, gpa: GuestPhysAddr|
        0 <= i < regions.len() && (#[trigger] regions[i]).has_page(gpa)
            ==> #[trigger] mappings.contains_key(gpa) && mappings[gpa] == (
            regions[i].target(gpa),
            regions[i].flags,
        )
}

/// The guest physical memory of one guest: its regions, ascending by start,
/// and the nested page table that translates them.
#[derive(Debug)]
pub struct GuestPhysMemorySet<T: GuestPageTableTrait> {
    regions: Vec<MapRegion>,
    npt: T,
}

impl<T: GuestPageTableTrait> GuestPhysMemorySet<T> {
    /// The recorded regions, ascending by start.
    pub closed spec fn regions(&self) -> Seq<RegionModel> {
        Seq::new(self.regions@.len(), |i: int| self.regions@[i]@)
    }

    /// The nested page table.
    pub closed spec fn table(&self) -> T {
        self.npt
    }

    /// What the nested page table translates.
    pub open spec fn mappings(&self) -> PageMappings {
        self.table().mappings()
    }

    /// The regions are in order and apart, and the table translates every
    /// page of each.
    pub open spec fn wf(&self) -> bool {
        &&& ordered(self.regions())
        &&& translated(self.regions(), self.mappings())
    }

    /// The table translates nothing but the pages of the regions.
    pub open spec fn is_exact(&self) -> bool {
        forall|gpa: GuestPhysAddr| #[trigger]
            self.mappings().contains_key(gpa) ==> covered(self.regions(), gpa)
    }

    /// An address space without regions, over a new nested page table.
    pub fn new() -> (r: HyperResult<Self>)
        ensures
            r matches Ok(set) ==> set.wf() && set.is_exact() && set.mappings()
                == PageMappings::empty() && set.regions() == Seq::<RegionModel>::empty(),
    {
        Self::with_table(T::new())
    }

    /// An address space without regions over the table that a construction
    /// ended with, or the error that it ended with.
    pub fn with_table(constructed: HyperResult<T>) -> (r: HyperResult<Self>)
        requires
            constructed matches Ok(table) ==> table.mappings() == PageMappings::empty(),
        ensures
            match constructed {
                Ok(table) => r matches Ok(set) && set.wf() && set.is_exact() && set.table()
                    == table && set.regions() == Seq::<RegionModel>::empty(),
                Err(e) => r matches Err(handed_on) && handed_on == e,
            },
    {
        let npt = match constructed {
            Ok(npt) => npt,
            Err(e) => {
                return Err(e);
            },
        };
        let set = Self { npt, regions: Vec::new() };
        proof {
            assert(set.regions() =~= Seq::<RegionModel>::empty());
        }
        Ok(set)
    }

    /// The host physical address of the top-level nested page table.
    pub fn nest_page_table_root(&self) -> (root: HostPhysAddr)
        ensures
            root == self.table().root(),
    {
        self.npt.root_paddr()
    }

    /// The nested page table.
    pub fn page_table(&self) -> (npt: &T)
        ensures
            *npt == self.table(),
    {
        &self.npt
    }

    /// The number of recorded regions.
    pub fn region_count(&self) -> (n: usize)
        ensures
            n == self.regions().len(),
    {
        self.regions.len()
    }

    /// The region at position `i`, counting from the lowest start.
    pub fn region_at(&self, i: usize) -> (region: &MapRegion)
        requires
            i < self.regions().len(),
        ensures
            region@ == self.regions()[i as int],
    {
        &self.regions[i]
    }

    /// The first position whose region starts at or after `start`.
    fn lower_bound(&self, start: GuestPhysAddr) -> (idx: usize)
        requires
            ordered(self.regions()),
        ensures
            idx <= self.regions().len(),
            forall|i: int| 0 <= i < idx ==> (#[trigger] self.regions()[i]).start < start,
            forall|i: int|
                idx <= i < self.regions().len() ==> (#[trigger] self.regions()[i]).start >= start,
    {
        let mut lo: usize = 0;
        let mut hi: usize = self.regions.len();
        while lo < hi
            invariant
                ordered(self.regions()),
                lo <= hi <= self.regions().len(),
                forall|i: int| 0 <= i < lo ==> (#[trigger] self.regions()[i]).start < start,
                forall|i: int|
                    hi <= i < self.regions().len() ==> (#[trigger] self.regions()[i]).start
                        >= start,
            decreases hi - lo,
        {
            let mid: usize = lo + (hi - lo) / 2;
            assert(self.regions()[mid as int] == self.regions@[mid as int]@);
            if self.regions[mid].start < start {
                lo = mid + 1;
            } else {
                hi = mid;
            }
        }
        lo
    }

    /// Whether `other` is clear of every recorded region. Only the two
    /// regions next to where `other` would stand are looked at.
    pub fn test_free_area(&self, other: &MapRegion) -> (free: bool)
        requires
            self.wf(),
            other@.in_bounds(),
        ensures
            free == !conflicts(self.regions(), other@),
    {
        let idx = self.lower_bound(other.start);
        if idx > 0 {
            assert(self.regions()[idx - 1] == self.regions@[idx - 1]@);
            if self.regions[idx - 1].is_overlap_with(other) {
                return false;
            }
        }
        if idx < self.regions.len() {
            assert(self.regions()[idx as int] == self.regions@[idx as int]@);
            if self.regions[idx].is_overlap_with(other) {
                return false;
            }
        }
        proof {
            let rs = self.regions();
            assert forall|j: int| 0 <= j < rs.len() implies !(#[trigger] rs[j]).overlaps(
                other@,
            ) by {
                if j < idx - 1 {
                    assert(rs[j].end() <= rs[idx - 1].start);
                } else if j > idx {
                    assert(rs[idx as int].end() <= rs[j].start);
                }
            }
        }
        true
    }

    /// Adds `region` to the address space. An empty region changes nothing.
    /// One that shares an address with a recorded region is refused. Else
    /// the region is mapped into the page table and then recorded; when the
    /// table refuses a page its error is handed on, the region is not
    /// recorded, and the pages mapped before that one stay mapped.
    pub fn map_region(&mut self, region: MapRegion) -> (r: HyperResult)
        requires
            old(self).wf(),
            region@.wf(),
        ensures
            final(self).wf(),
            final(self).table().root() == old(self).table().root(),
            region@.size == 0 ==> r is Ok && final(self).regions() == old(self).regions()
                && final(self).table() == old(self).table(),
            region@.size != 0 && conflicts(old(self).regions(), region@) ==> r == Err::<
                (),
                HyperError,
            >(HyperError::InvalidParam) && final(self).regions() == old(self).regions()
                && final(self).table() == old(self).table(),
            region@.size != 0 && !conflicts(old(self).regions(), region@) ==> match r {
                Ok(_) => {
                    &&& exists|idx: int|
                        0 <= idx <= old(self).regions().len() && final(self).regions()
                            == #[trigger] old(self).regions().insert(idx, region@)
                    &&& final(self).mappings() == region@.mapped_over(
                        old(self).mappings(),
                        region@.pages(),
                    )
                    &&& final(self).table().refusals() == old(self).table().refusals()
                    &&& old(self).is_exact() ==> final(self).is_exact()
                },
                Err(e) => {
                    &&& final(self).regions() == old(self).regions()
                    &&& final(self).table().refusals().len() == old(self).table().refusals().len()
                        + 1
                    &&& exists|k: nat|
                        {
                            &&& k < region@.pages()
                            &&& final(self).mappings() == #[trigger] region@.mapped_over(
                                old(self).mappings(),
                                k,
                            )
                            &&& final(self).table().refusals()
                                == old(self).table().refusals().push(
                                Refusal { unmap: false, gpa: region@.page(k), error: e },
                            )
                        }
                },
            },
    {
        if region.size == 0 {
            return Ok(());
        }
        if !self.test_free_area(&region) {
            return Err(HyperError::InvalidParam);
        }
        let ghost rs = self.regions();
        let ghost before = self.mappings();
        match region.map_to(&mut self.npt) {
            Ok(_) => {},
            Err(e) => {
                proof {
                    let k = choose|k: nat|
                        k < region@.pages() && self.mappings() == #[trigger] region@.mapped_over(
                            before,
                            k,
                        ) && self.table().refusals() == old(self).table().refusals().push(
                            Refusal { unmap: false, gpa: region@.page(k), error: e },
                        );
                    lemma_mapped_over_keeps(rs, before, region@, k);
                }
                return Err(e);
            },
        }
        proof {
            lemma_mapped_over_keeps(rs, before, region@, region@.pages());
        }
        let idx = self.lower_bound(region.start);
        let ghost model = region@;
        self.regions.insert(idx, region);
        proof {
            let after = self.regions();
            assert(after =~= rs.insert(idx as int, model));
            lemma_insert_keeps_order(rs, model, idx as int);
            lemma_insert_translated(rs, model, idx as int, before, self.mappings());
            if old(self).is_exact() {
                assert forall|gpa: GuestPhysAddr| #[trigger]
                    self.mappings().contains_key(gpa) implies covered(after, gpa) by {
                    if model.has_page(gpa) {
                        assert(after[idx as int].has_page(gpa));
                    } else {
                        assert(before.contains_key(gpa));
                        let i = choose|i: int| 0 <= i < rs.len() && (#[trigger] rs[i]).has_page(gpa);
                        if i < idx {
                            assert(after[i] == rs[i]);
                        } else {
                            assert(after[i + 1] == rs[i]);
                        }
                    }
                }
            }
        }
        Ok(())
    }

    /// Unmaps every recorded region, going on past a region that the table
    /// refuses to unmap, and forgets them all. Of each region the table has
    /// lost its first pages up to the one it refused, or all of them, and
    /// nothing else has changed. Returns how many regions kept a page, which
    /// is how many pages the table refused to unmap: none, where the table
    /// refuses nothing.
    pub fn clear(&mut self) -> (refused: usize)
        requires
            old(self).wf(),
        ensures
            final(self).wf(),
            final(self).regions() == Seq::<RegionModel>::empty(),
            final(self).table().root() == old(self).table().root(),
            exists|done: Seq<nat>| #[trigger]
                torn_down(
                    old(self).regions(),
                    old(self).mappings(),
                    done,
                    final(self).mappings(),
                    refused as nat,
                ),
            refused <= old(self).regions().len(),
            added_refusals(
                old(self).table().refusals(),
                final(self).table().refusals(),
                refused as nat,
            ),
            forall|j: int|
                old(self).table().refusals().len() <= j < final(self).table().refusals().len()
                    ==> (#[trigger] final(self).table().refusals()[j]).unmap && covered(
                    old(self).regions(),
                    final(self).table().refusals()[j].gpa,
                ),
            old(self).regions().len() == 0 ==> final(self).table() == old(self).table(),
            final(self).mappings().submap_of(old(self).mappings()),
            forall|gpa: GuestPhysAddr|
                old(self).mappings().contains_key(gpa) && !covered(old(self).regions(), gpa)
                    ==> #[trigger] final(self).mappings().contains_key(gpa),
            refused == 0 ==> forall|gpa: GuestPhysAddr|
                covered(old(self).regions(), gpa) ==> !(#[trigger] final(self).mappings().contains_key(
                    gpa,
                )),
            refused == 0 && old(self).is_exact() ==> final(self).mappings()
                == PageMappings::empty(),
    {
        let mut refused: usize = 0;
        let mut i: usize = 0;
        let n = self.regions.len();
        let ghost all = self.regions();
        let ghost base = self.mappings();
        let ghost mut done: Seq<nat> = Seq::empty();
        proof {
            assert(all.take(0) =~= Seq::<RegionModel>::empty());
            assert(self.mappings() =~= unmapped_each(all.take(0), done, base));
            let log = self.table().refusals();
            assert(log.take(log.len() as int) =~= log);
        }
        while i < n
            invariant
                i <= n,
                n == self.regions@.len(),
                self.regions == old(self).regions,
                all == self.regions(),
                ordered(all),
                refused <= i,
                self.table().root() == old(self).table().root(),
                i == 0 ==> self.table() == old(self).table(),
                added_refusals(
                    old(self).table().refusals(),
                    self.table().refusals(),
                    refused as nat,
                ),
                forall|j: int|
                    old(self).table().refusals().len() <= j < self.table().refusals().len() ==> (
                    #[trigger] self.table().refusals()[j]).unmap && covered(
                        all,
                        self.table().refusals()[j].gpa,
                    ),
                torn_down(all.take(i as int), base, done, self.mappings(), refused as nat),
            decreases n - i,
        {
            let ghost before = self.mappings();
            let ghost log = self.table().refusals();
            let ghost cur = all[i as int];
            assert(cur == self.regions@[i as int]@);
            let result = self.regions[i].unmap_to(&mut self.npt);
            proof {
                let k = if result is Ok {
                    cur.pages()
                } else {
                    choose|k: nat|
                        k < cur.pages() && self.mappings() == #[trigger] cur.unmapped_from(
                            before,
                            k,
                        ) && self.table().refusals() == log.push(
                            Refusal { unmap: true, gpa: cur.page(k), error: result->Err_0 },
                        )
                };
                if result is Err {
                    lemma_page_of_region(cur, k);
                    assert(covered(all, cur.page(k)));
                    assert(self.table().refusals().take(
                        old(self).table().refusals().len() as int,
                    ) =~= log.take(old(self).table().refusals().len() as int));
                }
                assert(all.take(i + 1) =~= all.take(i as int).push(cur));
                lemma_torn_down_push(
                    all.take(i as int),
                    base,
                    done,
                    before,
                    refused as nat,
                    cur,
                    k,
                );
                done = done.push(k);
            }
            if result.is_err() {
                refused += 1;
            }
            i += 1;
        }
        proof {
            assert(all.take(i as int) =~= all);
            lemma_torn_down(all, base, done, self.mappings(), refused as nat);
        }
        self.regions.clear();
        proof {
            assert(self.regions() =~= Seq::<RegionModel>::empty());
            if refused == 0 && old(self).is_exact() {
                assert forall|gpa: GuestPhysAddr| !(#[trigger] self.mappings().contains_key(
                    gpa,
                )) by {
                    if self.mappings().contains_key(gpa) {
                        assert(base.contains_key(gpa));
                    }
                }
                assert(self.mappings() =~= PageMappings::empty());
            }
        }
        refused
    }
}

/// Whether the record `after` is the record `before` with `count` refusals
/// behind it.
pub open spec fn added_refusals(before: Seq<Refusal>, after: Seq<Refusal>, count: nat) -> bool {
    &&& after.len() == before.len() + count
    &&& after.take(before.len() as int) == before
}

/// A page that a region has is one of its pages.
proof fn lemma_page_of_region(region: RegionModel, k: nat)
    requires
        region.wf(),
        k < region.pages(),
    ensures
        region.has_page(region.page(k)),
{
    assert(region.start + k * 4096 < region.start + region.size) by (nonlinear_arith)
        requires
            k < region.size / 4096,
    ;
    assert((region.start + k * 4096) % 4096 == 0) by (nonlinear_arith)
        requires
            region.start % 4096 == 0,
    ;
}

/// Whether `gpa` is the address of one of the first `done[i]` pages of some
/// region `regions[i]`.
pub open spec fn taken(regions: Seq<RegionModel>, done: Seq<nat>, gpa: GuestPhysAddr) -> bool {
    exists|i: int|
        0 <= i < regions.len() && i < done.len() && (#[trigger] regions[i]).has_page_below(
            gpa,
            done[i],
        )
}

/// `base` after the first `done[i]` pages of each region `regions[i]` were
/// unmapped from it.
pub open spec fn unmapped_each(regions: Seq<RegionModel>, done: Seq<nat>, base: PageMappings)
    -> PageMappings {
    Map::new(
        |gpa: GuestPhysAddr| base.contains_key(gpa) && !taken(regions, done, gpa),
        |gpa: GuestPhysAddr| base[gpa],
    )
}

/// How many regions `regions[i]` have more than `done[i]` pages.
pub open spec fn unfinished(regions: Seq<RegionModel>, done: Seq<nat>) -> nat
    decreases regions.len(),
{
    if regions.len() == 0 || done.len() == 0 {
        0
    } else {
        unfinished(regions.drop_last(), done.drop_last()) + if done.last()
            < regions.last().pages() {
            1nat
        } else {
            0nat
        }
    }
}

/// What a teardown of `regions` over the mappings `base` comes to, when the
/// table gave up the first `done[i]` pages of each region `regions[i]`: the
/// mappings `after` are `base` without those pages, and `refused` regions
/// kept a page.
pub open spec fn torn_down(
    regions: Seq<RegionModel>,
    base: PageMappings,
    done: Seq<nat>,
    after: PageMappings,
    refused: nat,
) -> bool {
    &&& done.len() == regions.len()
    &&& forall|i: int| 0 <= i < regions.len() ==> #[trigger] done[i] <= regions[i].pages()
    &&& after == unmapped_each(regions, done, base)
    &&& refused == unfinished(regions, done)
}

/// A teardown goes on by one region: unmapping the first `k` pages of
/// `region` from what the teardown of `regions` left.
proof fn lemma_torn_down_push(
    regions: Seq<RegionModel>,
    base: PageMappings,
    done: Seq<nat>,
    after: PageMappings,
    refused: nat,
    region: RegionModel,
    k: nat,
)
    requires
        torn_down(regions, base, done, after, refused),
        k <= region.pages(),
    ensures
        torn_down(
            regions.push(region),
            base,
            done.push(k),
            region.unmapped_from(after, k),
            if k < region.pages() {
                refused + 1
            } else {
                refused
            },
        ),
{
    let regions2 = regions.push(region);
    let done2 = done.push(k);
    assert(regions2.drop_last() =~= regions);
    assert(done2.drop_last() =~= done);
    assert forall|gpa: GuestPhysAddr|
        taken(regions2, done2, gpa) <==> taken(regions, done, gpa) || region.has_page_below(
            gpa,
            k,
        ) by {
        if taken(regions, done, gpa) {
            let i = choose|i: int|
                0 <= i < regions.len() && i < done.len() && (#[trigger] regions[i]).has_page_below(
                    gpa,
                    done[i],
                );
            assert(regions2[i].has_page_below(gpa, done2[i]));
        }
        if region.has_page_below(gpa, k) {
            assert(regions2[regions.len() as int].has_page_below(gpa, done2[regions.len() as int]));
        }
        if taken(regions2, done2, gpa) {
            let i = choose|i: int|
                0 <= i < regions2.len() && i < done2.len() && (
                #[trigger] regions2[i]).has_page_below(gpa, done2[i]);
            if i < regions.len() {
                assert(regions[i].has_page_below(gpa, done[i]));
            }
        }
    }
    assert(region.unmapped_from(after, k) =~= unmapped_each(regions2, done2, base));
}

/// What follows of a teardown: at most every region kept a page; nothing
/// was added to the mappings or changed in them; a page of no region is
/// still there; and where no region kept a page, the pages of all regions
/// are gone.
pub proof fn lemma_torn_down(
    regions: Seq<RegionModel>,
    base: PageMappings,
    done: Seq<nat>,
    after: PageMappings,
    refused: nat,
)
    requires
        torn_down(regions, base, done, after, refused),
    ensures
        refused <= regions.len(),
        after.submap_of(base),
        forall|gpa: GuestPhysAddr|
            base.contains_key(gpa) && !covered(regions, gpa) ==> #[trigger] after.contains_key(
                gpa,
            ),
        refused == 0 ==> forall|i: int|
            0 <= i < regions.len() ==> #[trigger] done[i] == regions[i].pages(),
        refused == 0 ==> forall|gpa: GuestPhysAddr|
            covered(regions, gpa) ==> !(#[trigger] after.contains_key(gpa)),
{
    lemma_unfinished(regions, done);
    assert forall|gpa: GuestPhysAddr|
        base.contains_key(gpa) && !covered(regions, gpa) implies #[trigger] after.contains_key(
        gpa,
    ) by {
        if taken(regions, done, gpa) {
            let i = choose|i: int|
                0 <= i < regions.len() && i < done.len() && (#[trigger] regions[i]).has_page_below(
                    gpa,
                    done[i],
                );
            assert(regions[i].has_page(gpa)) by (nonlinear_arith)
                requires
                    regions[i].has_page_below(gpa, done[i]),
                    done[i] <= regions[i].pages(),
                    PAGE_SIZE == 4096,
            ;
        }
    }
    if refused == 0 {
        assert forall|gpa: GuestPhysAddr| covered(regions, gpa) implies !(
        #[trigger] after.contains_key(gpa)) by {
            let i = choose|i: int| 0 <= i < regions.len() && (#[trigger] regions[i]).has_page(gpa);
            assert(done[i] == regions[i].pages());
            assert(regions[i].has_page_below(gpa, done[i]));
        }
    }
}

/// No more regions are unfinished than there are, and where none is, every
/// region has lost all its pages.
proof fn lemma_unfinished(regions: Seq<RegionModel>, done: Seq<nat>)
    requires
        done.len() == regions.len(),
        forall|i: int| 0 <= i < regions.len() ==> #[trigger] done[i] <= regions[i].pages(),
    ensures
        unfinished(regions, done) <= regions.len(),
        unfinished(regions, done) == 0 ==> forall|i: int|
            0 <= i < regions.len() ==> #[trigger] done[i] == regions[i].pages(),
    decreases regions.len(),
{
    if regions.len() > 0 {
        let rest = regions.drop_last();
        let rest_done = done.drop_last();
        assert forall|i: int| 0 <= i < rest.len() implies #[trigger] rest_done[i]
            <= rest[i].pages() by {
            assert(rest_done[i] == done[i]);
            assert(rest[i] == regions[i]);
        }
        lemma_unfinished(rest, rest_done);
        if unfinished(regions, done) == 0 {
            assert forall|i: int| 0 <= i < regions.len() implies #[trigger] done[i]
                == regions[i].pages() by {
                if i < rest.len() {
                    assert(rest_done[i] == done[i]);
                    assert(rest[i] == regions[i]);
                }
            }
        }
    }
}

/// Once a region is recorded, a region that shares an address with it is in
/// conflict, whichever of the two came first.
pub proof fn lemma_intersecting_regions_conflict(
    regions: Seq<RegionModel>,
    a: RegionModel,
    b: RegionModel,
    idx: int,
)
    requires
        0 <= idx <= regions.len(),
        a.overlaps(b),
    ensures
        conflicts(regions.insert(idx, a), b),
        conflicts(regions.insert(idx, b), a),
{
    assert(regions.insert(idx, a)[idx] == a);
    assert(regions.insert(idx, b)[idx] == b);
}

/// Mapping the first `k` pages of a region that is clear of `regions` leaves
/// the pages of `regions` as they were.
proof fn lemma_mapped_over_keeps(
    regions: Seq<RegionModel>,
    base: PageMappings,
    region: RegionModel,
    k: nat,
)
    requires
        ordered(regions),
        translated(regions, base),
        region.wf(),
        !conflicts(regions, region),
        k <= region.pages(),
    ensures
        translated(regions, region.mapped_over(base, k)),
{
    let m = region.mapped_over(base, k);
    assert forall|i: int, gpa: GuestPhysAddr|
        0 <= i < regions.len() && (#[trigger] regions[i]).has_page(gpa)
            implies #[trigger] m.contains_key(gpa) && m[gpa] == (
        regions[i].target(gpa),
        regions[i].flags,
    ) by {
        assert(!regions[i].overlaps(region));
        assert(base.contains_key(gpa));
        assert(!region.has_page_below(gpa, k)) by (nonlinear_arith)
            requires
                k <= region.pages(),
                region.pages() == region.size / 4096,
                regions[i].has_page(gpa),
                regions[i].pages() == regions[i].size / 4096,
                !regions[i].overlaps(region),
                PAGE_SIZE == 4096,
        {
        }
    }
}

/// Mappings that translate `regions` translate the page `gpa` of the
/// region at `i` as that region says.
proof fn lemma_translated_at(
    regions: Seq<RegionModel>,
    mappings: PageMappings,
    i: int,
    gpa: GuestPhysAddr,
)
    requires
        translated(regions, mappings),
        0 <= i < regions.len(),
        regions[i].has_page(gpa),
    ensures
        mappings.contains_key(gpa),
        mappings[gpa] == (regions[i].target(gpa), regions[i].flags),
{
    assert(regions[i].has_page(gpa) ==> mappings.contains_key(gpa));
}

/// A page mapped for `region` is translated as `region` says.
proof fn lemma_mapped_over_page(
    region: RegionModel,
    base: PageMappings,
    k: nat,
    gpa: GuestPhysAddr,
)
    requires
        region.has_page_below(gpa, k),
    ensures
        region.mapped_over(base, k).contains_key(gpa),
        region.mapped_over(base, k)[gpa] == (region.target(gpa), region.flags),
{
}

/// Once all pages of `region` are mapped over mappings that translate
/// `regions`, the mappings translate `regions` with `region` among them.
proof fn lemma_insert_translated(
    regions: Seq<RegionModel>,
    region: RegionModel,
    idx: int,
    base: PageMappings,
    mappings: PageMappings,
)
    requires
        0 <= idx <= regions.len(),
        translated(regions, mappings),
        mappings == region.mapped_over(base, region.pages()),
    ensures
        translated(regions.insert(idx, region), mappings),
{
    let after = regions.insert(idx, region);
    assert forall|i: int, gpa: GuestPhysAddr|
        0 <= i < after.len() && (#[trigger] after[i]).has_page(gpa)
            implies #[trigger] mappings.contains_key(gpa) && mappings[gpa] == (
        after[i].target(gpa),
        after[i].flags,
    ) by {
        if i < idx {
            assert(after[i] == regions[i]);
            lemma_translated_at(regions, mappings, i, gpa);
        } else if i > idx {
            assert(after[i] == regions[i - 1]);
            lemma_translated_at(regions, mappings, i - 1, gpa);
        } else {
            assert(after[i] == region);
            lemma_mapped_over_page(region, base, region.pages(), gpa);
        }
    }
}

/// A region that is clear of `regions` can stand among them, before the
/// first region that starts at or after it.
proof fn lemma_insert_keeps_order(regions: Seq<RegionModel>, region: RegionModel, idx: int)
    requires
        ordered(regions),
        region.wf(),
        region.size > 0,
        !conflicts(regions, region),
        0 <= idx <= regions.len(),
        forall|i: int| 0 <= i < idx ==> (#[trigger] regions[i]).start < region.start,
        forall|i: int| idx <= i < regions.len() ==> (#[trigger] regions[i]).start >= region.start,
    ensures
        ordered(regions.insert(idx, region)),
{
    let after = regions.insert(idx, region);
    assert forall|i: int| 0 <= i < after.len() implies (#[trigger] after[i]).wf() && after[i].size
        > 0 by {
        if i < idx {
            assert(after[i] == regions[i]);
        } else if i > idx {
            assert(after[i] == regions[i - 1]);
        }
    }
    assert forall|i: int, j: int| 0 <= i < j < after.len() implies (#[trigger] after[i]).end() <= (
    #[trigger] after[j]).start by {
        if i < idx {
            assert(after[i] == regions[i]);
            assert(!regions[i].overlaps(region));
        } else if i > idx {
            assert(after[i] == regions[i - 1]);
        }
        if j < idx {
            assert(after[j] == regions[j]);
        } else if j > idx {
            assert(after[j] == regions[j - 1]);
            assert(!regions[j - 1].overlaps(region));
        }
    }
}

} // verus!
