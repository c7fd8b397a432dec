use os_bootinfo::{
    frame_ceil, frame_floor, BootInfo, E820MemoryRegion, FrameRange, MemoryMap,
    MemoryRegion, MemoryRegionType, MAP_CAPACITY, VERSION,
};

fn usable(start: u64, end: u64) -> MemoryRegion {
    MemoryRegion {
        range: FrameRange { start_frame: start, end_frame: end },
        region_type: MemoryRegionType::Usable,
    }
}

fn record(start_addr: u64, len: u64, region_type: u32) -> E820MemoryRegion {
    E820MemoryRegion { start_addr, len, region_type, acpi_extended_attributes: 0 }
}

fn starts(map: &MemoryMap) -> Vec<u64> {
    map.regions().iter().map(|r| r.range.start_frame).collect()
}

#[test]
fn frame_floor_rounds_down() {
    assert_eq!(frame_floor(0x1234), 0x1000);
    assert_eq!(frame_floor(0x1000), 0x1000);
    assert_eq!(frame_floor(0xfff), 0);
    assert_eq!(frame_floor(u64::MAX), u64::MAX - 0xfff);
}

#[test]
fn frame_ceil_rounds_up() {
    assert_eq!(frame_ceil(0x1234), 0x2000);
    assert_eq!(frame_ceil(0x2000), 0x2000);
    assert_eq!(frame_ceil(0), 0);
    assert_eq!(frame_ceil(1), 0x1000);
    assert_eq!(frame_ceil(u64::MAX - 0xfff), u64::MAX - 0xfff);
}

#[test]
fn empty_region_is_sentinel() {
    let e = MemoryRegion::empty();
    assert!(e.range.is_empty());
    assert_eq!(e.range, FrameRange { start_frame: 0, end_frame: 0 });
    assert_eq!(e.region_type, MemoryRegionType::Empty);
}

#[test]
fn convert_widens_unaligned_start() {
    // [0x1001, 0x2001) touches the frames at 0x1000 and 0x2000
    let r = MemoryRegion::convert(record(0x1001, 0x1000, 1));
    assert_eq!(r.range, FrameRange { start_frame: 0x1000, end_frame: 0x3000 });
    assert_eq!(r.region_type, MemoryRegionType::Usable);
}

#[test]
fn convert_aligned_record_keeps_its_range() {
    let r = MemoryRegion::convert(record(0x1000, 0x1000, 1));
    assert_eq!(r, usable(0x1000, 0x2000));
}

#[test]
fn convert_partial_frame_covers_whole_frame() {
    let r = MemoryRegion::convert(record(0x1001, 0x10, 2));
    assert_eq!(r.range, FrameRange { start_frame: 0x1000, end_frame: 0x2000 });
    assert_eq!(r.region_type, MemoryRegionType::Reserved);
}

#[test]
fn convert_maps_each_known_code() {
    let expected = [
        (1, MemoryRegionType::Usable),
        (2, MemoryRegionType::Reserved),
        (3, MemoryRegionType::AcpiReclaimable),
        (4, MemoryRegionType::AcpiNvs),
        (5, MemoryRegionType::BadMemory),
    ];
    for (code, ty) in expected {
        let r = MemoryRegion::convert(record(0, 0x1000, code));
        assert_eq!(r.region_type, ty);
    }
}

#[test]
fn unknown_type_code_has_no_type() {
    assert_eq!(MemoryRegionType::from_e820_code(99), None);
    assert_eq!(MemoryRegionType::from_e820_code(0), None);
    assert_eq!(MemoryRegionType::from_e820_code(6), None);
    assert_eq!(MemoryRegionType::from_e820_code(u32::MAX), None);
    assert_eq!(MemoryRegionType::from_e820_code(1), Some(MemoryRegionType::Usable));
    assert_eq!(MemoryRegionType::from_e820_code(5), Some(MemoryRegionType::BadMemory));
}

#[test]
fn convert_twice_gives_identical_regions() {
    let rec = record(0x9f_c00, 0x400, 2);
    assert_eq!(MemoryRegion::convert(rec), MemoryRegion::convert(rec));
}

#[test]
fn convert_covers_reported_bytes() {
    let recs = [
        record(0, 0x9fc00, 1),
        record(0x9fc00, 0x400, 2),
        record(0xf0000, 0x10000, 2),
        record(0x100000, 0x7ee0000, 1),
        record(0x7fe0000, 0x20000, 3),
        record(0xfffc0000, 0x40000, 4),
        record(0x123, 0, 5),
    ];
    for rec in recs {
        let r = MemoryRegion::convert(rec);
        assert!(r.range.start_frame <= rec.start_addr);
        assert!(rec.start_addr + rec.len <= r.range.end_frame);
        assert_eq!(r.range.start_frame % 4096, 0);
        assert_eq!(r.range.end_frame % 4096, 0);
        assert!(r.range.start_frame + 4096 > rec.start_addr);
        assert!(r.range.end_frame < rec.start_addr + rec.len + 4096);
    }
}

#[test]
fn convert_near_top_of_address_space() {
    let r = MemoryRegion::convert(record(u64::MAX - 0x1fff, 0x1000, 1));
    assert_eq!(r.range, FrameRange { start_frame: u64::MAX - 0x1fff, end_frame: u64::MAX - 0xfff });
}

#[test]
fn new_map_is_empty() {
    let map = MemoryMap::new();
    assert!(map.regions().is_empty());
    assert_eq!(MAP_CAPACITY, 32);
}

#[test]
fn add_region_keeps_start_order() {
    let mut map = MemoryMap::new();
    map.add_region(usable(0x3000, 0x4000));
    map.add_region(usable(0x1000, 0x2000));
    map.add_region(usable(0x2000, 0x3000));
    assert_eq!(starts(&map), vec![0x1000, 0x2000, 0x3000]);
    assert_eq!(
        map.regions(),
        &[usable(0x1000, 0x2000), usable(0x2000, 0x3000), usable(0x3000, 0x4000)][..]
    );
}

#[test]
fn add_region_does_not_merge() {
    let mut map = MemoryMap::new();
    map.add_region(usable(0x1000, 0x3000));
    map.add_region(usable(0x2000, 0x4000));
    map.add_region(usable(0x1000, 0x3000));
    assert_eq!(map.regions().len(), 3);
    assert_eq!(starts(&map), vec![0x1000, 0x1000, 0x2000]);
}

#[test]
fn add_region_keeps_every_type() {
    let mut map = MemoryMap::new();
    let kernel = MemoryRegion {
        range: FrameRange { start_frame: 0x200000, end_frame: 0x400000 },
        region_type: MemoryRegionType::Kernel,
    };
    let zero = MemoryRegion {
        range: FrameRange { start_frame: 0, end_frame: 0x1000 },
        region_type: MemoryRegionType::FrameZero,
    };
    map.add_region(kernel);
    map.add_region(zero);
    assert_eq!(map.regions(), &[zero, kernel][..]);
}

#[test]
fn map_fills_to_capacity() {
    let mut map = MemoryMap::new();
    for i in (0..32u64).rev() {
        assert!(map.regions().len() < MAP_CAPACITY);
        map.add_region(usable(i * 0x1000, i * 0x1000 + 0x1000));
    }
    assert_eq!(map.regions().len(), MAP_CAPACITY);
    assert_eq!(starts(&map), (0..32u64).map(|i| i * 0x1000).collect::<Vec<_>>());
}

#[test]
fn regions_mut_then_sort_restores_order() {
    let mut map = MemoryMap::new();
    map.add_region(usable(0x1000, 0x2000));
    map.add_region(usable(0x2000, 0x3000));
    map.add_region(usable(0x3000, 0x4000));
    {
        let r = map.regions_mut();
        assert_eq!(r.len(), 3);
        r[0] = usable(0x9000, 0xa000);
        r[1].region_type = MemoryRegionType::Reserved;
    }
    assert_eq!(starts(&map), vec![0x9000, 0x2000, 0x3000]);
    map.sort();
    assert_eq!(starts(&map), vec![0x2000, 0x3000, 0x9000]);
    assert_eq!(map.regions()[0].region_type, MemoryRegionType::Reserved);
}

#[test]
fn sort_recounts_after_a_region_is_emptied() {
    let mut map = MemoryMap::new();
    map.add_region(usable(0x1000, 0x2000));
    map.add_region(usable(0x2000, 0x3000));
    map.add_region(usable(0x3000, 0x4000));
    map.regions_mut()[1] = MemoryRegion::empty();
    map.sort();
    assert_eq!(map.regions(), &[usable(0x1000, 0x2000), usable(0x3000, 0x4000)][..]);
}

#[test]
fn unused_slots_stay_sentinels() {
    for k in 0..=32u64 {
        let mut map = MemoryMap::new();
        for i in 0..k {
            // descending starts, so that every insertion moves the new region
            let s = (100 - i) * 0x1000;
            map.add_region(usable(s, s + 0x1000));
        }
        assert_eq!(map.regions().len() as u64, k);
        if k < 32 {
            map.add_region(usable(0x200000, 0x201000));
            assert_eq!(map.regions().len() as u64, k + 1);
            assert_eq!(map.regions().last().unwrap().range.start_frame, 0x200000);
        }
        assert!(map.regions().iter().all(|r| !r.range.is_empty()));
        let s = starts(&map);
        assert!(s.windows(2).all(|w| w[0] <= w[1]));
    }
}

#[test]
fn sort_leaves_map_unchanged() {
    let mut map = MemoryMap::new();
    map.add_region(usable(0x5000, 0x6000));
    map.add_region(usable(0x1000, 0x2000));
    let before: Vec<MemoryRegion> = map.regions().to_vec();
    map.sort();
    assert_eq!(map.regions(), &before[..]);
    assert_eq!(map.regions().len(), 2);
}

#[test]
fn converted_records_build_sorted_map() {
    let recs = [
        record(0x100000, 0x7ee0000, 1),
        record(0, 0x9fc00, 1),
        record(0xf0000, 0x10000, 2),
        record(0x9fc00, 0x400, 2),
    ];
    let mut map = MemoryMap::new();
    for rec in recs {
        map.add_region(MemoryRegion::convert(rec));
    }
    assert_eq!(starts(&map), vec![0, 0x9f000, 0xf0000, 0x100000]);
    assert_eq!(map.regions()[1].range.end_frame, 0xa0000);
    assert_eq!(map.regions()[1].region_type, MemoryRegionType::Reserved);
}

#[test]
fn boot_info_carries_current_version() {
    let mut map = MemoryMap::new();
    map.add_region(usable(0x1000, 0x2000));
    let info = BootInfo::new(0x70000, map);
    assert_eq!(info.version, VERSION);
    assert_eq!(info.version, 4);
    assert_eq!(info.p4_table_addr, 0x70000);
    assert_eq!(info.memory_map.regions(), &[usable(0x1000, 0x2000)][..]);
    assert_eq!(info.check_version(), Ok(()));
}

#[test]
fn boot_info_rejects_other_version() {
    let mut info = BootInfo::new(0x70000, MemoryMap::new());
    info.version = 3;
    assert_eq!(info.check_version(), Err(()));
    info.version = 5;
    assert_eq!(info.check_version(), Err(()));
}
