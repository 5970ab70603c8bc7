use kernel::memory::{MemoryLayout, PhysicalAddress};
use kernel::pmm::{Frame, FrameAllocator, MemoryMapAllocator, MemoryMapEntry};

const DIRECT_MAP_START: u64 = 0xFFFF_8000_0000_0000;

fn layout(size: u64) -> MemoryLayout {
    MemoryLayout::new(DIRECT_MAP_START, size).unwrap()
}

fn address_of(frame: &Frame) -> u64 {
    frame.get_starting_address().get_address()
}

#[test]
fn one_region_is_handed_out_last_page_first() {
    let map = [MemoryMapEntry { base: 0x1000, length: 0x4000, usable: true }];
    let mut allocator = MemoryMapAllocator::new(&map, layout(0x5000));
    let mut handed_out = Vec::new();
    while let Some(frame) = allocator.allocate() {
        handed_out.push(address_of(&frame));
    }
    assert_eq!(handed_out, vec![0x4000, 0x3000, 0x2000, 0x1000]);
    assert!(allocator.allocate().is_none());
}

#[test]
fn exhaustion_is_final() {
    let map = [MemoryMapEntry { base: 0x2000, length: 0x1000, usable: true }];
    let mut allocator = MemoryMapAllocator::new(&map, layout(0x3000));
    assert_eq!(address_of(&allocator.allocate().unwrap()), 0x2000);
    for _ in 0..5 {
        assert!(allocator.allocate().is_none());
    }
}

#[test]
fn empty_map_gives_an_exhausted_allocator() {
    let mut allocator = MemoryMapAllocator::new(&[], layout(0x10000));
    assert!(!allocator.has_free_pages(1));
    assert!(allocator.has_free_pages(0));
    assert!(allocator.allocate().is_none());
}

#[test]
fn unusable_regions_are_left_alone() {
    let map = [
        MemoryMapEntry { base: 0x0, length: 0x1000, usable: false },
        MemoryMapEntry { base: 0x1000, length: 0x2000, usable: true },
        MemoryMapEntry { base: 0x3000, length: 0x5000, usable: false },
        MemoryMapEntry { base: 0x8000, length: 0x1000, usable: true },
    ];
    let mut allocator = MemoryMapAllocator::new(&map, layout(0x9000));
    assert!(allocator.has_free_pages(3));
    assert!(!allocator.has_free_pages(4));
    let mut handed_out = Vec::new();
    while let Some(frame) = allocator.allocate() {
        handed_out.push(address_of(&frame));
    }
    // The region seen last is used up first.
    assert_eq!(handed_out, vec![0x8000, 0x2000, 0x1000]);
}

#[test]
fn region_length_is_rounded_down_to_whole_pages() {
    let map = [MemoryMapEntry { base: 0x1000, length: 0x2FFF, usable: true }];
    let mut allocator = MemoryMapAllocator::new(&map, layout(0x4000));
    assert!(allocator.has_free_pages(2));
    assert!(!allocator.has_free_pages(3));
}

#[test]
fn no_frame_is_handed_out_twice() {
    let map = [
        MemoryMapEntry { base: 0x1000, length: 0x8000, usable: true },
        MemoryMapEntry { base: 0x10000, length: 0x8000, usable: true },
    ];
    let mut allocator = MemoryMapAllocator::new(&map, layout(0x18000));
    let mut handed_out = Vec::new();
    while let Some(frame) = allocator.allocate() {
        let address = address_of(&frame);
        assert!(!handed_out.contains(&address));
        assert_eq!(address % 4096, 0);
        handed_out.push(address);
    }
    assert_eq!(handed_out.len(), 16);
}

#[test]
fn each_allocation_takes_one_page() {
    let map = [MemoryMapEntry { base: 0x1000, length: 0x3000, usable: true }];
    let mut allocator = MemoryMapAllocator::new(&map, layout(0x4000));
    assert!(allocator.has_free_pages(3));
    allocator.allocate().unwrap();
    assert!(allocator.has_free_pages(2));
    assert!(!allocator.has_free_pages(3));
    allocator.allocate().unwrap();
    allocator.allocate().unwrap();
    assert!(!allocator.has_free_pages(1));
}

#[test]
fn frame_keeps_its_address() {
    let layout = layout(0x10000);
    let frame = Frame::from_starting_address(PhysicalAddress::new(0x5000, &layout).unwrap());
    assert_eq!(address_of(&frame), 0x5000);
}

fn frame_at(address: u64, layout: &MemoryLayout) -> Frame {
    Frame::from_starting_address(PhysicalAddress::new(address, layout).unwrap())
}

fn drain(allocator: &mut MemoryMapAllocator) -> Vec<u64> {
    let mut handed_out = Vec::new();
    while let Some(frame) = allocator.allocate() {
        handed_out.push(address_of(&frame));
    }
    handed_out
}

#[test]
fn freed_frame_behind_a_run_extends_it() {
    let map = [MemoryMapEntry { base: 0x1000, length: 0x3000, usable: true }];
    let layout = layout(0x8000);
    let mut allocator = MemoryMapAllocator::new(&map, layout);
    // The run covers 0x1000 to 0x3FFF; the page at 0x4000 lies behind it.
    allocator.free(frame_at(0x4000, &layout));
    assert!(allocator.has_free_pages(4));
    assert_eq!(drain(&mut allocator), vec![0x4000, 0x3000, 0x2000, 0x1000]);
}

#[test]
fn freed_frame_before_a_run_becomes_its_start() {
    let map = [MemoryMapEntry { base: 0x3000, length: 0x2000, usable: true }];
    let layout = layout(0x8000);
    let mut allocator = MemoryMapAllocator::new(&map, layout);
    allocator.free(frame_at(0x2000, &layout));
    // One run from 0x2000 to 0x4FFF, used up from its end.
    assert_eq!(drain(&mut allocator), vec![0x4000, 0x3000, 0x2000]);
}

#[test]
fn freed_frame_between_two_runs_joins_them() {
    // The region seen last heads the list, so the list is the run at
    // 0x1000 and then the run at 0x4000.
    let map = [
        MemoryMapEntry { base: 0x4000, length: 0x2000, usable: true },
        MemoryMapEntry { base: 0x1000, length: 0x2000, usable: true },
    ];
    let layout = layout(0x8000);
    let mut allocator = MemoryMapAllocator::new(&map, layout);
    allocator.free(frame_at(0x3000, &layout));
    assert!(allocator.has_free_pages(5));
    assert!(!allocator.has_free_pages(6));
    // One run from 0x1000 to 0x5FFF.
    assert_eq!(drain(&mut allocator), vec![0x5000, 0x4000, 0x3000, 0x2000, 0x1000]);
}

#[test]
fn freed_frame_that_touches_no_run_heads_the_list() {
    let map = [MemoryMapEntry { base: 0x1000, length: 0x2000, usable: true }];
    let layout = layout(0x10000);
    let mut allocator = MemoryMapAllocator::new(&map, layout);
    allocator.free(frame_at(0x8000, &layout));
    assert_eq!(drain(&mut allocator), vec![0x8000, 0x2000, 0x1000]);
}

#[test]
fn freed_frame_can_be_allocated_again() {
    let map = [MemoryMapEntry { base: 0x1000, length: 0x2000, usable: true }];
    let layout = layout(0x3000);
    let mut allocator = MemoryMapAllocator::new(&map, layout);
    let first = allocator.allocate().unwrap();
    let second = allocator.allocate().unwrap();
    assert_eq!(address_of(&first), 0x2000);
    assert_eq!(address_of(&second), 0x1000);
    assert!(allocator.allocate().is_none());
    allocator.free(second);
    allocator.free(first);
    // 0x1000 came back first and 0x2000 lies behind it: one run again.
    assert_eq!(drain(&mut allocator), vec![0x2000, 0x1000]);
}

#[test]
fn memory_maps_are_screened() {
    let layout = layout(0x10000);
    let good = [
        MemoryMapEntry { base: 0x1000, length: 0x2000, usable: true },
        MemoryMapEntry { base: 0x2000, length: 0x8000, usable: false },
        MemoryMapEntry { base: 0x8000, length: 0x8000, usable: true },
    ];
    assert!(MemoryMapAllocator::accepts(&good, &layout));
    assert!(MemoryMapAllocator::accepts(&[], &layout));

    let page_zero = [MemoryMapEntry { base: 0x0, length: 0x2000, usable: true }];
    assert!(!MemoryMapAllocator::accepts(&page_zero, &layout));
    let unaligned = [MemoryMapEntry { base: 0x1800, length: 0x2000, usable: true }];
    assert!(!MemoryMapAllocator::accepts(&unaligned, &layout));
    let too_short = [MemoryMapEntry { base: 0x1000, length: 0xFFF, usable: true }];
    assert!(!MemoryMapAllocator::accepts(&too_short, &layout));
    let beyond = [MemoryMapEntry { base: 0xF000, length: 0x2000, usable: true }];
    assert!(!MemoryMapAllocator::accepts(&beyond, &layout));
    let overlapping = [
        MemoryMapEntry { base: 0x1000, length: 0x3000, usable: true },
        MemoryMapEntry { base: 0x3000, length: 0x1000, usable: true },
    ];
    assert!(!MemoryMapAllocator::accepts(&overlapping, &layout));
    let straddling = MemoryLayout { direct_map_start: 0x7FFF_FFFF_F000, physical_memory_size: 0x10000 };
    assert!(!MemoryMapAllocator::accepts(&good, &straddling));
}

#[test]
fn allocator_remembers_its_layout() {
    let layout = layout(0x9000);
    let allocator = MemoryMapAllocator::new(&[], layout);
    assert_eq!(allocator.layout().direct_map_start, DIRECT_MAP_START);
    assert_eq!(allocator.layout().physical_memory_size, 0x9000);
}
