use hvcore::addr::{is_aligned, PAGE_SIZE};
use hvcore::config::{guest_memory_regions, map_requests, setup_gpm, ConfigFile, HostBacking};
use hvcore::error::{HyperError, HyperResult};
use hvcore::flags::{FLAG_DEVICE, FLAG_EXECUTE, FLAG_READ, FLAG_WRITE};
use hvcore::memory::{GuestMemoryRegion, GuestPhysMemorySet, MapRegion};
use hvcore::page_table::GuestPageTableTrait;
use page_table_entry::MappingFlags;
use std::collections::BTreeMap;

const ROOT: usize = 0x7000;

/// A page table in ordinary memory. It refuses to map a page twice, to unmap
/// a page that is not mapped, to hold more than `LIMIT` pages, and to unmap
/// the page at `STUCK`.
#[derive(Debug)]
struct SoftTable<const LIMIT: usize, const STUCK: usize> {
    pages: BTreeMap<usize, (usize, MappingFlags)>,
}

type Table = SoftTable<{ usize::MAX }, { usize::MAX }>;

impl<const LIMIT: usize, const STUCK: usize> GuestPageTableTrait for SoftTable<LIMIT, STUCK> {
    fn new() -> HyperResult<Self> {
        Ok(SoftTable { pages: BTreeMap::new() })
    }

    fn map(&mut self, gpa: usize, hpa: usize, flags: MappingFlags) -> HyperResult {
        if self.pages.contains_key(&gpa) {
            return Err(HyperError::BadState);
        }
        if self.pages.len() >= LIMIT {
            return Err(HyperError::NoMemory);
        }
        self.pages.insert(gpa, (hpa, flags));
        Ok(())
    }

    fn unmap(&mut self, gpa: usize) -> HyperResult {
        if gpa == STUCK {
            return Err(HyperError::BadState);
        }
        match self.pages.remove(&gpa) {
            Some(_) => Ok(()),
            None => Err(HyperError::NotFound),
        }
    }

    fn root_paddr(&self) -> usize {
        ROOT
    }
}

/// A page table that cannot be had.
#[derive(Debug)]
struct NoTable;

impl GuestPageTableTrait for NoTable {
    fn new() -> HyperResult<Self> {
        Err(HyperError::NoMemory)
    }

    fn map(&mut self, _gpa: usize, _hpa: usize, _flags: MappingFlags) -> HyperResult {
        Err(HyperError::NoMemory)
    }

    fn unmap(&mut self, _gpa: usize) -> HyperResult {
        Err(HyperError::NotFound)
    }

    fn root_paddr(&self) -> usize {
        0
    }
}

fn rw() -> MappingFlags {
    MappingFlags::READ | MappingFlags::WRITE
}

fn region(start: usize, size: usize) -> MapRegion {
    MapRegion::checked_new_offset(start, start + 0x10_0000, size, rw()).unwrap()
}

fn starts<T: GuestPageTableTrait>(set: &GuestPhysMemorySet<T>) -> Vec<usize> {
    (0..set.region_count()).map(|i| set.region_at(i).start).collect()
}

fn pages<const L: usize, const S: usize>(
    set: &GuestPhysMemorySet<SoftTable<L, S>>,
) -> Vec<(usize, usize)> {
    set.page_table().pages.iter().map(|(gpa, (hpa, _))| (*gpa, *hpa)).collect()
}

#[test]
fn alignment_is_to_the_page() {
    assert_eq!(PAGE_SIZE, 4096);
    for addr in [0usize, 0x1000, 0x2000, 0xfec0_0000, usize::MAX - 0xfff] {
        assert!(is_aligned(addr));
    }
    for addr in [1usize, 0xfff, 0x1001, 0x1800, 0x1900, usize::MAX] {
        assert!(!is_aligned(addr));
    }
}

#[test]
fn flag_bits_are_those_of_the_flags() {
    assert_eq!(FLAG_READ, MappingFlags::READ.bits());
    assert_eq!(FLAG_WRITE, MappingFlags::WRITE.bits());
    assert_eq!(FLAG_EXECUTE, MappingFlags::EXECUTE.bits());
    assert_eq!(FLAG_DEVICE, MappingFlags::DEVICE.bits());
}

#[test]
fn unaligned_region_is_never_made() {
    assert!(MapRegion::checked_new_offset(0x1000, 0x2000, 0x3000, rw()).is_ok());
    for (gpa, hpa, size) in [
        (0x1001usize, 0x2000usize, 0x1000usize),
        (0x1000, 0x2800, 0x1000),
        (0x1000, 0x2000, 0x1001),
        (0x1800, 0x1800, 0x100),
        (1, 1, 1),
    ] {
        assert_eq!(
            MapRegion::checked_new_offset(gpa, hpa, size, rw()).map(|r| r.start),
            Err(HyperError::InvalidParam)
        );
        assert!(!GuestMemoryRegion { gpa, hpa, size, flags: rw() }.is_valid());
    }
}

#[test]
fn checked_region_ends_within_the_address_space() {
    let top = usize::MAX - 0xfff;
    // The range would end one past the last address.
    assert_eq!(
        MapRegion::checked_new_offset(top, 0, 0x1000, rw()).map(|r| r.start),
        Err(HyperError::InvalidParam)
    );
    assert!(!GuestMemoryRegion { gpa: top, hpa: 0, size: 0x1000, flags: rw() }.is_valid());
    assert!(MapRegion::checked_new_offset(top - 0x1000, 0, 0x1000, rw()).is_ok());
    assert!(MapRegion::checked_new_offset(top, 0, 0, rw()).is_ok());
}

#[test]
fn region_keeps_what_it_was_made_of() {
    let made = MapRegion::new_offset(0x4000, 0x9000, 0x2000, MappingFlags::EXECUTE);
    assert_eq!(made.start, 0x4000);
    assert_eq!(made.size, 0x2000);
    assert!(made.flags == MappingFlags::EXECUTE);
    assert_eq!((made.start(), made.size()), (0x4000, 0x2000));
    assert!(made.flags() == MappingFlags::EXECUTE);
    assert_eq!(made.target(0x4000), 0x9000);
    let request =
        GuestMemoryRegion { gpa: 0x4000, hpa: 0x9000, size: 0x2000, flags: MappingFlags::READ };
    assert!(request.is_valid());
    let made = MapRegion::from(request);
    assert_eq!((made.start, made.size, made.target(0x4000)), (0x4000, 0x2000, 0x9000));
    assert!(made.flags == MappingFlags::READ);
}

#[test]
fn overlap_is_symmetric() {
    let cases = [
        ((0x0usize, 0x1000usize), (0x1000usize, 0x1000usize), false),
        ((0x0, 0x2000), (0x1000, 0x1000), true),
        ((0x0, 0x3000), (0x1000, 0x1000), true),
        ((0x1000, 0x1000), (0x1000, 0x1000), true),
        ((0x0, 0x1000), (0x5000, 0x1000), false),
        ((0x2000, 0x2000), (0x1000, 0x2000), true),
        ((0x0, 0x0), (0x0, 0x1000), false),
        ((0x1000, 0x0), (0x0, 0x3000), true),
    ];
    for ((s0, z0), (s1, z1), expected) in cases {
        let a = region(s0, z0);
        let b = region(s1, z1);
        assert_eq!(a.is_overlap_with(&b), expected);
        assert_eq!(b.is_overlap_with(&a), expected);
    }
}

#[test]
fn intersecting_region_is_refused_in_either_order() {
    let pairs = [
        ((0x0usize, 0x2000usize), (0x1000usize, 0x2000usize)),
        ((0x1000, 0x1000), (0x0, 0x3000)),
        ((0x3000, 0x1000), (0x3000, 0x1000)),
    ];
    for ((s0, z0), (s1, z1)) in pairs {
        let mut set = GuestPhysMemorySet::<Table>::new().unwrap();
        assert_eq!(set.map_region(region(s0, z0)), Ok(()));
        assert_eq!(set.map_region(region(s1, z1)), Err(HyperError::InvalidParam));
        assert_eq!(starts(&set), vec![s0]);
        let mut set = GuestPhysMemorySet::<Table>::new().unwrap();
        assert_eq!(set.map_region(region(s1, z1)), Ok(()));
        assert_eq!(set.map_region(region(s0, z0)), Err(HyperError::InvalidParam));
        assert_eq!(starts(&set), vec![s1]);
    }
}

#[test]
fn target_is_as_far_from_the_host_start_as_the_address_from_the_guest_start() {
    for (gpa0, hpa0, size) in [
        (0x0usize, 0x4000_0000usize, 0x4000usize),
        (0x8000_0000, 0x1000, 0x3000),
        (0x5000, 0x5000, 0x2000),
        (0xfec0_0000, 0x123000, 0x1000),
    ] {
        let r = MapRegion::new_offset(gpa0, hpa0, size, rw());
        for off in [0usize, 1, 0xfff, 0x1000, size / 2, size - 1] {
            assert_eq!(r.target(gpa0 + off), hpa0 + off);
        }
    }
}

#[test]
fn target_wraps_round_the_address_space() {
    let top = usize::MAX - 0xfff;
    let r = MapRegion::new_offset(0, top, 0x2000, rw());
    assert_eq!(r.target(0), top);
    assert_eq!(r.target(0xfff), usize::MAX);
    assert_eq!(r.target(0x1000), 0);
    assert_eq!(r.target(0x1234), 0x234);
}

#[test]
fn map_to_maps_every_page_in_ascending_order() {
    let mut table = Table::new().unwrap();
    let r = MapRegion::new_offset(0x2000, 0x9000, 0x3000, MappingFlags::READ);
    assert_eq!(r.map_to(&mut table), Ok(()));
    let found: Vec<(usize, usize)> = table.pages.iter().map(|(g, (h, _))| (*g, *h)).collect();
    assert_eq!(found, vec![(0x2000, 0x9000), (0x3000, 0xa000), (0x4000, 0xb000)]);
    assert!(table.pages.values().all(|(_, f)| *f == MappingFlags::READ));
    assert_eq!(r.unmap_to(&mut table), Ok(()));
    assert!(table.pages.is_empty());
}

#[test]
fn map_to_stops_at_the_first_refused_page_and_keeps_the_earlier_ones() {
    let mut table = SoftTable::<2, { usize::MAX }>::new().unwrap();
    let r = MapRegion::new_offset(0x2000, 0x9000, 0x4000, rw());
    assert_eq!(r.map_to(&mut table), Err(HyperError::NoMemory));
    let found: Vec<usize> = table.pages.keys().copied().collect();
    assert_eq!(found, vec![0x2000, 0x3000]);
}

#[test]
fn unmap_to_stops_at_the_first_refused_page_and_keeps_the_later_ones() {
    let mut table = SoftTable::<{ usize::MAX }, 0x3000>::new().unwrap();
    let r = MapRegion::new_offset(0x2000, 0x9000, 0x3000, rw());
    assert_eq!(r.map_to(&mut table), Ok(()));
    assert_eq!(r.unmap_to(&mut table), Err(HyperError::BadState));
    let found: Vec<usize> = table.pages.keys().copied().collect();
    assert_eq!(found, vec![0x3000, 0x4000]);
}

#[test]
fn map_of_an_empty_region_does_nothing() {
    let mut table = Table::new().unwrap();
    let r = MapRegion::new_offset(0x2000, 0x9000, 0, rw());
    assert_eq!(r.map_to(&mut table), Ok(()));
    assert!(table.pages.is_empty());
    assert_eq!(r.unmap_to(&mut table), Ok(()));
}

#[test]
fn new_address_space_is_empty() {
    let set = GuestPhysMemorySet::<Table>::new().unwrap();
    assert_eq!(set.region_count(), 0);
    assert!(set.page_table().pages.is_empty());
    assert_eq!(set.nest_page_table_root(), ROOT);
}

#[test]
fn new_address_space_hands_on_the_error_of_the_table() {
    assert_eq!(
        GuestPhysMemorySet::<NoTable>::new().map(|s| s.region_count()),
        Err(HyperError::NoMemory)
    );
}

#[test]
fn adjacent_regions_then_one_inside() {
    let mut set = GuestPhysMemorySet::<Table>::new().unwrap();
    assert_eq!(set.map_region(region(0x0, 0x1000)), Ok(()));
    assert_eq!(set.map_region(region(0x1000, 0x1000)), Ok(()));
    assert_eq!(set.region_count(), 2);
    // `[0x1800, 0x1900)` is not made of whole pages: no region is made of it.
    let attempt = MapRegion::checked_new_offset(0x1800, 0x1800, 0x100, rw());
    assert_eq!(attempt.map(|r| r.start), Err(HyperError::InvalidParam));
    assert_eq!(set.region_count(), 2);
    // The page that holds it is taken.
    assert_eq!(set.map_region(region(0x1000, 0x1000)), Err(HyperError::InvalidParam));
    assert_eq!(set.region_count(), 2);
    assert_eq!(starts(&set), vec![0x0, 0x1000]);
    assert_eq!(pages(&set), vec![(0x0, 0x10_0000), (0x1000, 0x10_1000)]);
}

#[test]
fn regions_are_kept_in_ascending_order() {
    let mut set = GuestPhysMemorySet::<Table>::new().unwrap();
    for start in [0x5000usize, 0x1000, 0x9000, 0x3000, 0x7000, 0x0] {
        assert_eq!(set.map_region(region(start, 0x1000)), Ok(()));
    }
    assert_eq!(starts(&set), vec![0x0, 0x1000, 0x3000, 0x5000, 0x7000, 0x9000]);
    // Every gap takes a region, and then nothing is free below 0xa000.
    for start in [0x2000usize, 0x4000, 0x6000, 0x8000] {
        assert_eq!(set.map_region(region(start, 0x1000)), Ok(()));
    }
    for start in (0..0xa000usize).step_by(0x1000) {
        assert_eq!(set.map_region(region(start, 0x1000)), Err(HyperError::InvalidParam));
    }
    assert_eq!(set.region_count(), 10);
    assert_eq!(pages(&set).len(), 10);
}

#[test]
fn only_a_neighbour_can_be_in_the_way() {
    let mut set = GuestPhysMemorySet::<Table>::new().unwrap();
    assert_eq!(set.map_region(region(0x0, 0x1000)), Ok(()));
    assert_eq!(set.map_region(region(0x4000, 0x4000)), Ok(()));
    assert_eq!(set.map_region(region(0x10000, 0x1000)), Ok(()));
    // Reaches into the region before it.
    assert_eq!(set.map_region(region(0x7000, 0x2000)), Err(HyperError::InvalidParam));
    // Reaches into the region after it.
    assert_eq!(set.map_region(region(0x3000, 0x2000)), Err(HyperError::InvalidParam));
    // Covers a region whole.
    assert_eq!(set.map_region(region(0x2000, 0x8000)), Err(HyperError::InvalidParam));
    // Fits between two.
    assert_eq!(set.map_region(region(0x8000, 0x8000)), Ok(()));
    assert_eq!(starts(&set), vec![0x0, 0x4000, 0x8000, 0x10000]);
    assert!(!set.test_free_area(&region(0xf000, 0x2000)));
    assert!(set.test_free_area(&region(0x1000, 0x3000)));
    assert!(set.test_free_area(&region(0x11000, 0x1000)));
}

#[test]
fn empty_region_is_accepted_and_not_recorded() {
    let mut set = GuestPhysMemorySet::<Table>::new().unwrap();
    assert_eq!(set.map_region(region(0x1000, 0x2000)), Ok(()));
    assert_eq!(set.map_region(region(0x2000, 0)), Ok(()));
    assert_eq!(set.map_region(region(0x8000, 0)), Ok(()));
    assert_eq!(starts(&set), vec![0x1000]);
    assert_eq!(pages(&set).len(), 2);
}

#[test]
fn region_that_the_table_refuses_is_not_recorded_and_not_rolled_back() {
    let mut set = GuestPhysMemorySet::<SoftTable<3, { usize::MAX }>>::new().unwrap();
    assert_eq!(set.map_region(region(0x0, 0x1000)), Ok(()));
    assert_eq!(set.map_region(region(0x4000, 0x4000)), Err(HyperError::NoMemory));
    assert_eq!(starts(&set), vec![0x0]);
    let mapped: Vec<usize> = pages(&set).iter().map(|p| p.0).collect();
    assert_eq!(mapped, vec![0x0, 0x4000, 0x5000]);
}

#[test]
fn clear_unmaps_and_forgets_every_region() {
    let mut set = GuestPhysMemorySet::<Table>::new().unwrap();
    assert_eq!(set.map_region(region(0x0, 0x3000)), Ok(()));
    assert_eq!(set.map_region(region(0x8000, 0x2000)), Ok(()));
    assert_eq!(pages(&set).len(), 5);
    assert_eq!(set.clear(), 0);
    assert_eq!(set.region_count(), 0);
    assert!(set.page_table().pages.is_empty());
    assert_eq!(set.nest_page_table_root(), ROOT);
    // What was taken is free again.
    assert_eq!(set.map_region(region(0x1000, 0x8000)), Ok(()));
    assert_eq!(set.clear(), 0);
    assert_eq!(set.clear(), 0);
}

#[test]
fn clear_goes_on_past_a_region_that_the_table_keeps() {
    let mut set = GuestPhysMemorySet::<SoftTable<{ usize::MAX }, 0x5000>>::new().unwrap();
    assert_eq!(set.map_region(region(0x0, 0x2000)), Ok(()));
    assert_eq!(set.map_region(region(0x4000, 0x3000)), Ok(()));
    assert_eq!(set.map_region(region(0x9000, 0x1000)), Ok(()));
    assert_eq!(set.clear(), 1);
    assert_eq!(set.region_count(), 0);
    let left: Vec<usize> = pages(&set).iter().map(|p| p.0).collect();
    assert_eq!(left, vec![0x5000, 0x6000]);
}

fn backing() -> [HostBacking; 2] {
    [
        HostBacking { ram: 0x4000_0000, io_apic: 0x5000_0000, local_apic: 0x5000_1000 },
        HostBacking { ram: 0x6000_0000, io_apic: 0x7000_0000, local_apic: 0x7000_1000 },
    ]
}

fn config(memory: usize, io_apic: usize, hpet: usize, local_apic: usize) -> ConfigFile {
    ConfigFile { id: 0, memory, vcpu_count: 1, io_apic, HPET: hpet, local_apic }
}

#[test]
fn configuration_asks_for_ram_and_the_devices_switched_on() {
    let all = guest_memory_regions(&config(0x100_0000, 1, 1, 1), &backing()[0]);
    let found: Vec<(usize, usize, usize)> = all.iter().map(|r| (r.gpa, r.hpa, r.size)).collect();
    assert_eq!(
        found,
        vec![
            (0, 0x4000_0000, 0x100_0000),
            (0xfec0_0000, 0x5000_0000, 0x1000),
            (0xfed0_0000, 0xfed0_0000, 0x1000),
            (0xfee0_0000, 0x5000_1000, 0x1000),
        ]
    );
    assert!(all[0].flags == MappingFlags::READ | MappingFlags::WRITE | MappingFlags::EXECUTE);
    assert_eq!(all[0].flags.bits(), 7);
    assert_eq!(all[1].flags.bits(), 19);
    for device in &all[1..] {
        assert!(device.flags == MappingFlags::READ | MappingFlags::WRITE | MappingFlags::DEVICE);
    }
    let some = guest_memory_regions(&config(0x2000, 0, 7, 0), &backing()[1]);
    let found: Vec<(usize, usize, usize)> = some.iter().map(|r| (r.gpa, r.hpa, r.size)).collect();
    assert_eq!(found, vec![(0, 0x6000_0000, 0x2000), (0xfed0_0000, 0xfed0_0000, 0x1000)]);
    let none = guest_memory_regions(&config(0, 0, 0, 0), &backing()[0]);
    assert_eq!(none.len(), 1);
    assert_eq!(none[0].size, 0);
}

#[test]
fn setup_records_and_maps_what_the_configuration_asks_for() {
    let set = setup_gpm::<Table>(1, config(0x3000, 1, 0, 1), &backing()).unwrap();
    assert_eq!(starts(&set), vec![0, 0xfec0_0000, 0xfee0_0000]);
    assert_eq!(
        pages(&set),
        vec![
            (0x0, 0x6000_0000),
            (0x1000, 0x6000_1000),
            (0x2000, 0x6000_2000),
            (0xfec0_0000, 0x7000_0000),
            (0xfee0_0000, 0x7000_1000),
        ]
    );
    let ram = MappingFlags::READ | MappingFlags::WRITE | MappingFlags::EXECUTE;
    let device = MappingFlags::READ | MappingFlags::WRITE | MappingFlags::DEVICE;
    assert!(set.region_at(0).flags == ram);
    assert!(set.region_at(1).flags == device);
    assert!(set.page_table().pages[&0x1000].1 == ram);
    assert!(set.page_table().pages[&0xfee0_0000].1 == device);
    assert_eq!(set.nest_page_table_root(), ROOT);
}

#[test]
fn setup_without_ram_records_the_devices_only() {
    let set = setup_gpm::<Table>(0, config(0, 0, 1, 0), &backing()).unwrap();
    assert_eq!(starts(&set), vec![0xfed0_0000]);
    assert_eq!(pages(&set), vec![(0xfed0_0000, 0xfed0_0000)]);
}

#[test]
fn setup_hands_on_the_error_of_the_table() {
    let r = setup_gpm::<NoTable>(0, config(0x1000, 0, 0, 0), &backing());
    assert_eq!(r.map(|s| s.region_count()), Err(HyperError::NoMemory));
    let r = setup_gpm::<SoftTable<2, { usize::MAX }>>(0, config(0x3000, 0, 0, 0), &backing());
    assert_eq!(r.map(|s| s.region_count()), Err(HyperError::NoMemory));
}

#[test]
fn setup_refuses_ram_that_reaches_a_device_page() {
    if usize::BITS < 64 {
        return;
    }
    // Only the bookkeeping is reached: the table that counts no page is
    // asked for the RAM pages first, and refuses the first of them.
    let r = setup_gpm::<SoftTable<0, { usize::MAX }>>(0, config(0xfec0_1000, 1, 0, 0), &backing());
    assert_eq!(r.map(|s| s.region_count()), Err(HyperError::NoMemory));
}

#[test]
fn device_page_inside_ram_is_refused() {
    let mut set = GuestPhysMemorySet::<Table>::new().unwrap();
    let all = guest_memory_regions(&config(0x4000, 0, 0, 0), &backing()[0]);
    assert_eq!(set.map_region(MapRegion::from(all[0])), Ok(()));
    let inside = GuestMemoryRegion { gpa: 0x2000, hpa: 0x9000, size: 0x1000, flags: rw() };
    assert_eq!(set.map_region(MapRegion::from(inside)), Err(HyperError::InvalidParam));
    assert_eq!(starts(&set), vec![0]);
    assert_eq!(pages(&set).len(), 4);
}

#[test]
fn configuration_is_read_from_six_words_for_each_guest() {
    let words = [0usize, 0x100_0000, 1, 1, 0, 1, 1, 0x80_0000, 2, 0, 1, 0];
    assert_eq!(
        ConfigFile::from_words(&words, 0),
        ConfigFile { id: 0, memory: 0x100_0000, vcpu_count: 1, io_apic: 1, HPET: 0, local_apic: 1 }
    );
    assert_eq!(
        ConfigFile::from_words(&words, 1),
        ConfigFile { id: 1, memory: 0x80_0000, vcpu_count: 2, io_apic: 0, HPET: 1, local_apic: 0 }
    );
}

#[test]
fn empty_region_inside_another_is_accepted_as_nothing() {
    let mut set = GuestPhysMemorySet::<Table>::new().unwrap();
    assert_eq!(set.map_region(region(0x0, 0x2000)), Ok(()));
    let empty = region(0x1000, 0);
    assert!(empty.is_overlap_with(set.region_at(0)));
    assert_eq!(set.map_region(empty), Ok(()));
    assert_eq!(starts(&set), vec![0x0]);
}

#[test]
fn clear_counts_every_region_that_kept_a_page() {
    // The table keeps the page at 0x1000 and, having no page at 0x7000 any
    // more, refuses that one as well.
    let mut set = GuestPhysMemorySet::<SoftTable<{ usize::MAX }, 0x1000>>::new().unwrap();
    assert_eq!(set.map_region(region(0x0, 0x3000)), Ok(()));
    assert_eq!(set.map_region(region(0x5000, 0x1000)), Ok(()));
    assert_eq!(set.map_region(region(0x7000, 0x2000)), Ok(()));
    assert_eq!(set.clear(), 1);
    assert_eq!(set.region_count(), 0);
    let left: Vec<usize> = pages(&set).iter().map(|p| p.0).collect();
    assert_eq!(left, vec![0x1000, 0x2000]);
    // Nothing is recorded, nothing is counted.
    assert_eq!(set.clear(), 0);
    assert_eq!(pages(&set).len(), 2);
}

#[test]
fn refused_page_hands_on_the_error_of_the_table() {
    let mut set = GuestPhysMemorySet::<SoftTable<1, { usize::MAX }>>::new().unwrap();
    assert_eq!(set.map_region(region(0x0, 0x2000)), Err(HyperError::NoMemory));
    // The first page stayed mapped: the table now refuses it as taken.
    assert_eq!(set.map_region(region(0x0, 0x1000)), Err(HyperError::BadState));
    let mut table = SoftTable::<{ usize::MAX }, { usize::MAX }>::new().unwrap();
    assert_eq!(region(0x0, 0x1000).unmap_to(&mut table), Err(HyperError::NotFound));
}

#[test]
fn region_at_the_top_of_the_address_space_keeps_its_numbers() {
    let top = usize::MAX - 0xfff;
    let made = MapRegion::new_offset(top, 0x5000, 0x1000, rw());
    assert_eq!((made.start(), made.size()), (top, 0x1000));
    assert_eq!(made.target(top), 0x5000);
    assert_eq!(made.target(usize::MAX), 0x5fff);
}

#[test]
fn address_space_is_made_over_the_table_that_was_constructed() {
    let mut table = Table::new().unwrap();
    table.pages.clear();
    let set = GuestPhysMemorySet::with_table(Ok(table)).unwrap();
    assert_eq!(set.region_count(), 0);
    assert_eq!(set.nest_page_table_root(), ROOT);
    for error in [HyperError::NoMemory, HyperError::BadState, HyperError::InvalidParam] {
        let failed = GuestPhysMemorySet::<Table>::with_table(Err(error));
        assert_eq!(failed.map(|s| s.region_count()), Err(error));
    }
}

fn request(gpa: usize, size: usize) -> GuestMemoryRegion {
    GuestMemoryRegion { gpa, hpa: gpa + 0x10_0000, size, flags: rw() }
}

#[test]
fn requests_are_granted_in_order() {
    let mut set = GuestPhysMemorySet::<Table>::new().unwrap();
    let requests =
        vec![request(0x0, 0x2000), request(0x2000, 0), request(0x4000, 0x1000), request(0x5000, 0x1000)];
    assert_eq!(map_requests(&mut set, &requests), Ok(()));
    assert_eq!(starts(&set), vec![0x0, 0x4000, 0x5000]);
    assert_eq!(pages(&set).len(), 4);
    let mut set = GuestPhysMemorySet::<Table>::new().unwrap();
    assert_eq!(map_requests(&mut set, &vec![]), Ok(()));
    assert_eq!(set.region_count(), 0);
}

#[test]
fn requests_stop_at_the_first_that_shares_an_address() {
    let mut set = GuestPhysMemorySet::<Table>::new().unwrap();
    let requests =
        vec![request(0x0, 0x2000), request(0x1000, 0x2000), request(0x8000, 0x1000)];
    assert_eq!(map_requests(&mut set, &requests), Err(HyperError::InvalidParam));
    // The request before it stays recorded and mapped; the one after it was
    // never put.
    assert_eq!(starts(&set), vec![0x0]);
    assert_eq!(pages(&set), vec![(0x0, 0x10_0000), (0x1000, 0x10_1000)]);
}

#[test]
fn requests_stop_at_the_first_that_the_table_refuses() {
    let mut set = GuestPhysMemorySet::<SoftTable<3, { usize::MAX }>>::new().unwrap();
    let requests =
        vec![request(0x0, 0x2000), request(0x4000, 0x2000), request(0x8000, 0x1000)];
    assert_eq!(map_requests(&mut set, &requests), Err(HyperError::NoMemory));
    assert_eq!(starts(&set), vec![0x0]);
    let mapped: Vec<usize> = pages(&set).iter().map(|p| p.0).collect();
    assert_eq!(mapped, vec![0x0, 0x1000, 0x4000]);
}
