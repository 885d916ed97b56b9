//! How a guest is configured, and the address space that its configuration
//! asks for.

use vstd::prelude::*;
use crate::addr::{GuestPhysAddr, HostPhysAddr};
use crate::error::{HyperError, HyperResult};
use crate::flags::{
    flags_from_bits, mapping_flags, FLAG_DEVICE, FLAG_EXECUTE, FLAG_READ, FLAG_WRITE,
};
use crate::memory::{
    conflicts, covered, ordered, GuestMemoryRegion, GuestPhysMemorySet, MapRegion, RegionModel,
};
use crate::page_table::{GuestPageTableTrait, PageMappings, Refusal};

verus! {

/// Host physical address of the BIOS image.
pub const BIOS_PADDR: HostPhysAddr = 0x4000000;

/// Size of the BIOS image.
pub const BIOS_SIZE: usize = 0x1000;

/// Host physical address of the guest image.
pub const GUEST_IMAGE_PADDR: HostPhysAddr = 0x4001000;

/// Size of the guest image.
pub const GUEST_IMAGE_SIZE: usize = 0x10_0000;

/// Where guest RAM begins.
pub const GUEST_PHYS_MEMORY_BASE: GuestPhysAddr = 0;

/// Guest physical address that the BIOS is entered at.
pub const BIOS_ENTRY: GuestPhysAddr = 0x8000;

/// Guest physical address that the guest image is entered at.
pub const GUEST_ENTRY: GuestPhysAddr = 0x20_0000;

/// Size of the host memory that backs one guest's RAM.
pub const GUEST_PHYS_MEMORY_SIZE: usize = 0x100_0000;

/// Guest physical address of the I/O APIC page.
pub const IO_APIC_BASE: GuestPhysAddr = 0xfec0_0000;

/// Guest and host physical address of the HPET page.
pub const HPET_BASE: GuestPhysAddr = 0xfed0_0000;

/// Guest physical address of the local APIC page.
pub const LOCAL_APIC_BASE: GuestPhysAddr = 0xfee0_0000;

/// Size of each device page.
pub const DEVICE_PAGE_SIZE: usize = 0x1000;

/// Flag bits of guest RAM: readable, writable, executable.
pub const RAM_FLAGS: usize = FLAG_READ | FLAG_WRITE | FLAG_EXECUTE;

/// Flag bits of a device page: readable, writable, device memory.
pub const DEVICE_FLAGS: usize = FLAG_READ | FLAG_WRITE | FLAG_DEVICE;

/// The configuration of one guest.
#[allow(non_snake_case)]
#[derive(Clone, Copy, Debug, PartialEq, Eq)]
pub struct ConfigFile {
    pub id: usize,
    pub memory: usize,
    pub vcpu_count: usize,
    pub io_apic: usize,
    pub HPET: usize,
    pub local_apic: usize,
}

/// How many words describe one guest.
pub const VM_CONFIG_SIZE: usize = 6;

impl ConfigFile {
    /// The configuration of guest `id` in `vms_config`, which holds six
    /// words for each guest: its id, the size of its RAM, the number of its
    /// vCPUs, and whether it has an I/O APIC, an HPET and a local APIC.
    pub fn from_words(vms_config: &[usize], id: usize) -> (config: ConfigFile)
        requires
            (id + 1) * VM_CONFIG_SIZE <= vms_config@.len(),
        ensures
            config == (ConfigFile {
                id: vms_config@[id * VM_CONFIG_SIZE],
                memory: vms_config@[id * VM_CONFIG_SIZE + 1],
                vcpu_count: vms_config@[id * VM_CONFIG_SIZE + 2],
                io_apic: vms_config@[id * VM_CONFIG_SIZE + 3],
                HPET: vms_config@[id * VM_CONFIG_SIZE + 4],
                local_apic: vms_config@[id * VM_CONFIG_SIZE + 5],
            }),
    {
        let len: usize = vms_config.len();
        assert(id * VM_CONFIG_SIZE + VM_CONFIG_SIZE <= len) by (nonlinear_arith)
            requires
                (id + 1) * VM_CONFIG_SIZE <= len,
        ;
        let first: usize = id * VM_CONFIG_SIZE;
        ConfigFile {
            id: vms_config[first],
            memory: vms_config[first + 1],
            vcpu_count: vms_config[first + 2],
            io_apic: vms_config[first + 3],
            HPET: vms_config[first + 4],
            local_apic: vms_config[first + 5],
        }
    }
}

/// The host physical addresses that back one guest.
#[derive(Clone, Copy, Debug, PartialEq, Eq)]
pub struct HostBacking {
    /// Where the guest's RAM lies.
    pub ram: HostPhysAddr,
    /// Where the page behind the guest's I/O APIC lies.
    pub io_apic: HostPhysAddr,
    /// Where the page behind the guest's local APIC lies.
    pub local_apic: HostPhysAddr,
}

/// The request for the guest's RAM.
pub open spec fn ram_request(config: ConfigFile, backing: HostBacking) -> GuestMemoryRegion {
    GuestMemoryRegion {
        gpa: GUEST_PHYS_MEMORY_BASE,
        hpa: backing.ram,
        size: config.memory,
        flags: flags_from_bits(RAM_FLAGS),
    }
}

/// The request for a device page at `gpa`, backed at `hpa`.
pub open spec fn device_request(gpa: GuestPhysAddr, hpa: HostPhysAddr) -> GuestMemoryRegion {
    GuestMemoryRegion { gpa, hpa, size: DEVICE_PAGE_SIZE, flags: flags_from_bits(DEVICE_FLAGS) }
}

/// The mappings that a configuration asks for, ascending by guest address:
/// RAM, then the page of each device that is switched on.
pub open spec fn spec_guest_memory_regions(config: ConfigFile, backing: HostBacking) -> Seq<
    GuestMemoryRegion,
> {
    let ram = seq![ram_request(config, backing)];
    let io_apic = if config.io_apic != 0 {
        ram.push(device_request(IO_APIC_BASE, backing.io_apic))
    } else {
        ram
    };
    let hpet = if config.HPET != 0 {
        io_apic.push(device_request(HPET_BASE, HPET_BASE))
    } else {
        io_apic
    };
    if config.local_apic != 0 {
        hpet.push(device_request(LOCAL_APIC_BASE, backing.local_apic))
    } else {
        hpet
    }
}

/// A region can be made of every request.
pub open spec fn all_valid(requests: Seq<GuestMemoryRegion>) -> bool {
    forall|i: int| 0 <= i < requests.len() ==> (#[trigger] requests[i]).valid()
}

/// Each request begins after the one before it.
pub open spec fn ascending(requests: Seq<GuestMemoryRegion>) -> bool {
    forall|i: int, j: int|
        0 <= i < j < requests.len() ==> (#[trigger] requests[i]).gpa < (#[trigger] requests[j]).gpa
}

/// No two requests that ask for at least one byte share a guest address.
pub open spec fn apart(requests: Seq<GuestMemoryRegion>) -> bool {
    forall|i: int, j: int|
        0 <= i < j < requests.len() && (#[trigger] requests[i]).size != 0 && (
        #[trigger] requests[j]).size != 0 ==> !requests[i].model().overlaps(requests[j].model())
}

/// The regions of the requests that ask for at least one byte, in the order
/// of the requests.
pub open spec fn requested(requests: Seq<GuestMemoryRegion>) -> Seq<RegionModel>
    decreases requests.len(),
{
    if requests.len() == 0 {
        Seq::empty()
    } else if requests.last().size == 0 {
        requested(requests.drop_last())
    } else {
        requested(requests.drop_last()).push(requests.last().model())
    }
}

/// The mappings that a configuration asks for, ascending by guest address.
pub fn guest_memory_regions(config_file: &ConfigFile, backing: &HostBacking) -> (regions: Vec<
    GuestMemoryRegion,
>)
    ensures
        regions@ == spec_guest_memory_regions(*config_file, *backing),
        ascending(regions@),
{
    let mut guest_memory_regions = Vec::new();
    guest_memory_regions.push(
        GuestMemoryRegion {
            gpa: GUEST_PHYS_MEMORY_BASE,
            hpa: backing.ram,
            size: config_file.memory,
            flags: mapping_flags(RAM_FLAGS),
        },
    );
    assert(guest_memory_regions@ =~= seq![ram_request(*config_file, *backing)]);
    if config_file.io_apic != 0 {
        guest_memory_regions.push(
            GuestMemoryRegion {
                gpa: IO_APIC_BASE,
                hpa: backing.io_apic,
                size: DEVICE_PAGE_SIZE,
                flags: mapping_flags(DEVICE_FLAGS),
            },
        );
    }
    assert(forall|i: int|
        0 <= i < guest_memory_regions@.len() ==> (#[trigger] guest_memory_regions@[i]).gpa
            <= IO_APIC_BASE);
    if config_file.HPET != 0 {
        guest_memory_regions.push(
            GuestMemoryRegion {
                gpa: HPET_BASE,
                hpa: HPET_BASE,
                size: DEVICE_PAGE_SIZE,
                flags: mapping_flags(DEVICE_FLAGS),
            },
        );
    }
    assert(forall|i: int|
        0 <= i < guest_memory_regions@.len() ==> (#[trigger] guest_memory_regions@[i]).gpa
            <= HPET_BASE);
    if config_file.local_apic != 0 {
        guest_memory_regions.push(
            GuestMemoryRegion {
                gpa: LOCAL_APIC_BASE,
                hpa: backing.local_apic,
                size: DEVICE_PAGE_SIZE,
                flags: mapping_flags(DEVICE_FLAGS),
            },
        );
    }
    guest_memory_regions
}

/// What is left where the requests were put to a set in order and request
/// `n` failed with `error`: the `regions` of the set are those of the
/// requests before it; request `n` either shares an address with one of
/// them, which the set itself refuses, or the table refused one of its
/// pages, which is the one refusal added to the table's record; and the
/// `mappings` hold nothing but the pages of the regions and the pages of
/// request `n` below the refused one.
pub open spec fn stopped_at(
    requests: Seq<GuestMemoryRegion>,
    n: int,
    error: HyperError,
    regions: Seq<RegionModel>,
    mappings: PageMappings,
    log_before: Seq<Refusal>,
    log_after: Seq<Refusal>,
) -> bool {
    &&& 0 <= n < requests.len()
    &&& requests[n].size != 0
    &&& regions == requested(requests.take(n))
    &&& apart(requests.take(n))
    &&& if conflicts(regions, requests[n].model()) {
        &&& error == HyperError::InvalidParam
        &&& log_after == log_before
        &&& forall|gpa: GuestPhysAddr| #[trigger]
            mappings.contains_key(gpa) ==> covered(regions, gpa)
    } else {
        exists|k: nat|
            {
                &&& k < requests[n].model().pages()
                &&& log_after == #[trigger] log_before.push(
                    Refusal { unmap: false, gpa: requests[n].model().page(k), error },
                )
                &&& forall|gpa: GuestPhysAddr| #[trigger]
                    mappings.contains_key(gpa) ==> covered(regions, gpa)
                        || requests[n].model().has_page_below(gpa, k)
            }
    }
}

/// Puts the requests to an empty address space in order and stops at the
/// first that fails, with its error. Ascending requests end as Ok where no
/// two of them share an address and the table refuses nothing.
pub fn map_requests<T: GuestPageTableTrait>(
    gpm: &mut GuestPhysMemorySet<T>,
    requests: &Vec<GuestMemoryRegion>,
) -> (r: HyperResult)
    requires
        old(gpm).wf(),
        old(gpm).is_exact(),
        old(gpm).regions() == Seq::<RegionModel>::empty(),
        all_valid(requests@),
        ascending(requests@),
    ensures
        final(gpm).wf(),
        final(gpm).table().root() == old(gpm).table().root(),
        r is Ok ==> final(gpm).is_exact() && final(gpm).regions() == requested(requests@)
            && apart(requests@) && final(gpm).table().refusals() == old(gpm).table().refusals(),
        r is Err ==> exists|n: int| #[trigger]
            stopped_at(
                requests@,
                n,
                r->Err_0,
                final(gpm).regions(),
                final(gpm).mappings(),
                old(gpm).table().refusals(),
                final(gpm).table().refusals(),
            ),
        r is Err ==> {
            ||| {
                &&& r->Err_0 == HyperError::InvalidParam
                &&& !apart(requests@)
                &&& final(gpm).table().refusals() == old(gpm).table().refusals()
            }
            ||| {
                &&& final(gpm).table().refusals().len() == old(gpm).table().refusals().len() + 1
                &&& final(gpm).table().refusals().last().error == r->Err_0
            }
        },
{
    let mut i: usize = 0;
    proof {
        assert(requests@.take(0) =~= Seq::<GuestMemoryRegion>::empty());
    }
    while i < requests.len()
        invariant
            i <= requests@.len(),
            ascending(requests@),
            all_valid(requests@),
            gpm.wf(),
            gpm.is_exact(),
            gpm.table().root() == old(gpm).table().root(),
            gpm.table().refusals() == old(gpm).table().refusals(),
            gpm.regions() == requested(requests@.take(i as int)),
            apart(requests@.take(i as int)),
        decreases requests@.len() - i,
    {
        let request = requests[i];
        let ghost taken = requests@.take(i as int);
        let ghost before = gpm.mappings();
        proof {
            assert(requests@.take(i + 1) =~= taken.push(request));
            lemma_ascending_prefix(requests@, i + 1);
            lemma_requested_push(taken, request);
        }
        match gpm.map_region(MapRegion::from(request)) {
            Ok(_) => {
                proof {
                    if request.size != 0 {
                        lemma_clear_of_earlier(taken, request);
                        lemma_granted_last(taken, request, gpm.regions());
                    }
                    lemma_apart_push(taken, request);
                }
            },
            Err(e) => {
                proof {
                    if conflicts(requested(taken), request.model()) {
                        lemma_conflict_is_not_apart(requests@, i as int);
                    } else {
                        let k = choose|k: nat|
                            {
                                &&& k < request.model().pages()
                                &&& gpm.mappings() == #[trigger] request.model().mapped_over(
                                    before,
                                    k,
                                )
                                &&& gpm.table().refusals() == old(gpm).table().refusals().push(
                                    Refusal {
                                        unmap: false,
                                        gpa: request.model().page(k),
                                        error: e,
                                    },
                                )
                            };
                        assert forall|gpa: GuestPhysAddr| #[trigger]
                            gpm.mappings().contains_key(gpa) implies covered(
                            requested(taken),
                            gpa,
                        ) || request.model().has_page_below(gpa, k) by {
                            if !request.model().has_page_below(gpa, k) {
                                assert(before.contains_key(gpa));
                            }
                        }
                    }
                    assert(stopped_at(
                        requests@,
                        i as int,
                        e,
                        gpm.regions(),
                        gpm.mappings(),
                        old(gpm).table().refusals(),
                        gpm.table().refusals(),
                    ));
                }
                return Err(e);
            },
        }
        i += 1;
    }
    proof {
        assert(requests@.take(i as int) =~= requests@);
    }
    Ok(())
}

/// Builds the address space of guest `id` out of its configuration and of
/// the host memory that backs it: a new address space, and the requests of
/// `guest_memory_regions` put to it in order. Where the table cannot be
/// made, or a request fails, the error is handed on; what was mapped by
/// then is unmapped before the set is let go.
pub fn setup_gpm<T: GuestPageTableTrait>(
    id: usize,
    config_file: ConfigFile,
    backing: &[HostBacking],
) -> (r: HyperResult<GuestPhysMemorySet<T>>)
    requires
        id < backing@.len(),
        all_valid(spec_guest_memory_regions(config_file, backing@[id as int])),
    ensures
        r matches Ok(set) ==> {
            &&& set.wf()
            &&& set.is_exact()
            &&& set.regions() == requested(
                spec_guest_memory_regions(config_file, backing@[id as int]),
            )
            &&& apart(spec_guest_memory_regions(config_file, backing@[id as int]))
        },
        !apart(spec_guest_memory_regions(config_file, backing@[id as int])) ==> r is Err,
{
    let regions = guest_memory_regions(&config_file, &backing[id]);
    let mut gpm = match GuestPhysMemorySet::with_table(T::new()) {
        Ok(gpm) => gpm,
        Err(e) => {
            return Err(e);
        },
    };
    match map_requests(&mut gpm, &regions) {
        Ok(_) => Ok(gpm),
        Err(e) => {
            gpm.clear();
            Err(e)
        },
    }
}

/// The first `n` of ascending requests are ascending.
proof fn lemma_ascending_prefix(requests: Seq<GuestMemoryRegion>, n: int)
    requires
        ascending(requests),
        0 <= n <= requests.len(),
    ensures
        ascending(requests.take(n)),
{
    assert forall|i: int, j: int| 0 <= i < j < requests.take(n).len() implies (
    #[trigger] requests.take(n)[i]).gpa < (#[trigger] requests.take(n)[j]).gpa by {
        assert(requests.take(n)[i] == requests[i]);
        assert(requests.take(n)[j] == requests[j]);
    }
}

/// What one more request adds to the regions asked for.
proof fn lemma_requested_push(taken: Seq<GuestMemoryRegion>, request: GuestMemoryRegion)
    ensures
        requested(taken.push(request)) == if request.size == 0 {
            requested(taken)
        } else {
            requested(taken).push(request.model())
        },
{
    assert(taken.push(request).drop_last() =~= taken);
    assert(taken.push(request).last() == request);
}

/// Where among the regions asked for the region of request `k` stands.
proof fn lemma_requested_index(requests: Seq<GuestMemoryRegion>, k: int) -> (at: int)
    requires
        0 <= k < requests.len(),
        requests[k].size != 0,
    ensures
        0 <= at < requested(requests).len(),
        requested(requests)[at] == requests[k].model(),
    decreases requests.len(),
{
    let rest = requests.drop_last();
    if k == requests.len() - 1 {
        requested(rest).len() as int
    } else {
        assert(rest[k] == requests[k]);
        lemma_requested_index(rest, k)
    }
}

/// Which request the region at `at` among the regions asked for is of.
proof fn lemma_requested_source(requests: Seq<GuestMemoryRegion>, at: int) -> (k: int)
    requires
        0 <= at < requested(requests).len(),
    ensures
        0 <= k < requests.len(),
        requests[k].size != 0,
        requested(requests)[at] == requests[k].model(),
    decreases requests.len(),
{
    let rest = requests.drop_last();
    if requests.last().size != 0 && at == requested(rest).len() {
        requests.len() - 1
    } else {
        let k = lemma_requested_source(rest, at);
        assert(rest[k] == requests[k]);
        k
    }
}

/// A request that is clear of the regions asked for before it shares no
/// address with any earlier request that asked for a byte.
proof fn lemma_clear_of_earlier(taken: Seq<GuestMemoryRegion>, request: GuestMemoryRegion)
    requires
        !conflicts(requested(taken), request.model()),
    ensures
        forall|k: int|
            0 <= k < taken.len() && (#[trigger] taken[k]).size != 0 ==> !taken[k].model().overlaps(
                request.model(),
            ),
{
    assert forall|k: int| 0 <= k < taken.len() && (#[trigger] taken[k]).size != 0
        implies !taken[k].model().overlaps(request.model()) by {
        let at = lemma_requested_index(taken, k);
        assert(!requested(taken)[at].overlaps(request.model()));
    }
}

/// A request that begins after all requests before it, once granted, stands
/// last among the recorded regions.
proof fn lemma_granted_last(
    taken: Seq<GuestMemoryRegion>,
    request: GuestMemoryRegion,
    after: Seq<RegionModel>,
)
    requires
        ascending(taken.push(request)),
        ordered(after),
        exists|idx: int|
            0 <= idx <= requested(taken).len() && after == #[trigger] requested(taken).insert(
                idx,
                request.model(),
            ),
    ensures
        after == requested(taken).push(request.model()),
{
    let before = requested(taken);
    let next = taken.push(request);
    let idx = choose|idx: int|
        0 <= idx <= before.len() && after == #[trigger] before.insert(idx, request.model());
    if idx < before.len() {
        let k = lemma_requested_source(taken, idx);
        assert(after[idx] == request.model());
        assert(after[idx + 1] == before[idx]);
        assert(next[k] == taken[k]);
        assert(next[taken.len() as int] == request);
        assert(next[k].gpa < next[taken.len() as int].gpa);
        assert(after[idx].end() <= after[idx + 1].start);
        assert(after[idx].size > 0);
        assert(false);
    }
    assert(after =~= before.push(request.model()));
}

/// Requests that are apart stay apart with one more that shares no address
/// with any of them.
proof fn lemma_apart_push(taken: Seq<GuestMemoryRegion>, request: GuestMemoryRegion)
    requires
        apart(taken),
        request.size != 0 ==> forall|k: int|
            0 <= k < taken.len() && (#[trigger] taken[k]).size != 0 ==> !taken[k].model().overlaps(
                request.model(),
            ),
    ensures
        apart(taken.push(request)),
{
    let next = taken.push(request);
    assert forall|a: int, b: int|
        0 <= a < b < next.len() && (#[trigger] next[a]).size != 0 && (#[trigger] next[b]).size
            != 0 implies !next[a].model().overlaps(next[b].model()) by {
        assert(next[a] == taken[a]);
        if b < taken.len() {
            assert(next[b] == taken[b]);
        } else {
            assert(next[b] == request);
        }
    }
}

/// Where request `n` shares an address with a region asked for before it,
/// the requests are not apart.
proof fn lemma_conflict_is_not_apart(requests: Seq<GuestMemoryRegion>, n: int)
    requires
        0 <= n < requests.len(),
        requests[n].size != 0,
        conflicts(requested(requests.take(n)), requests[n].model()),
    ensures
        !apart(requests),
{
    let taken = requests.take(n);
    let before = requested(taken);
    let at = choose|at: int|
        0 <= at < before.len() && (#[trigger] before[at]).overlaps(requests[n].model());
    let k = lemma_requested_source(taken, at);
    assert(taken[k] == requests[k]);
    assert(requests[k].size != 0 && requests[n].size != 0);
    assert(requests[k].model().overlaps(requests[n].model()));
}

} // verus!
