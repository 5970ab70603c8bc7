use kernel::memory::{MemoryLayout, VirtualAddress};
use kernel::pmm::{FrameAllocator, MemoryMapAllocator, MemoryMapEntry};
use kernel::x64::entry::{
    PageDirectoryEntry, PageDirectoryEntryHugePage, PageTableEntry, PdptEntry, PdptEntryHugePage,
};
use kernel::x64::page_table::{PageDirectory, PageTable, Pdpt, Translation, WalkEnd, PML4};

const DIRECT_MAP_START: u64 = 0xFFFF_8000_0000_0000;

fn setup(pages: u64) -> (MemoryLayout, MemoryMapAllocator) {
    let size = 0x1000 * (pages + 1);
    let layout = MemoryLayout::new(DIRECT_MAP_START, size).unwrap();
    let map = [MemoryMapEntry { base: 0x1000, length: 0x1000 * pages, usable: true }];
    (layout, MemoryMapAllocator::new(&map, layout))
}

fn va(address: u64) -> VirtualAddress {
    VirtualAddress::create(address).unwrap()
}

#[test]
fn mapping_one_page_creates_three_tables() {
    let (layout, mut allocator) = setup(16);
    let mut pml4 = PML4::new(&mut allocator);
    let frame = allocator.allocate().unwrap();
    let frame_address = frame.get_starting_address().get_address();
    assert_eq!(pml4.tables_to_create(va(0x1000), &layout), 3);
    assert!(allocator.has_free_pages(14));
    pml4.map(&mut allocator, frame, va(0x1000), true, false);
    assert!(allocator.has_free_pages(11));
    assert!(!allocator.has_free_pages(12));

    let mut iterator = pml4.iterator(layout);
    let (address, mapped) = iterator.next().unwrap();
    assert_eq!(address.address(), 0x1000);
    assert_eq!(mapped.get_starting_address().get_address(), frame_address);
    assert!(iterator.next().is_none());
    assert!(iterator.next().is_none());
}

#[test]
fn mapped_page_resolves_to_its_entry() {
    let (layout, mut allocator) = setup(16);
    let mut pml4 = PML4::new(&mut allocator);
    assert!(pml4.translate(va(0x20_3000), &layout).is_none());
    let frame = allocator.allocate().unwrap();
    let frame_address = frame.get_starting_address().get_address();
    pml4.map(&mut allocator, frame, va(0x20_3000), false, true);
    match pml4.translate(va(0x20_3000), &layout) {
        Some(Translation::Page(word)) => {
            let entry = PageTableEntry::from_bits(word);
            assert!(entry.present());
            assert!(!entry.read_write());
            assert!(entry.execute_disable());
            assert_eq!(entry.address(&layout).get_address(), frame_address);
        }
        _ => panic!("the page is mapped"),
    }
    // The offset inside the page plays no part.
    assert!(pml4.translate(va(0x20_3FFF), &layout).is_some());
    // The neighbours are not mapped.
    assert!(pml4.translate(va(0x20_2000), &layout).is_none());
    assert!(pml4.translate(va(0x20_4000), &layout).is_none());
}

#[test]
fn second_page_in_the_same_table_creates_no_table() {
    let (layout, mut allocator) = setup(16);
    let mut pml4 = PML4::new(&mut allocator);
    let first = allocator.allocate().unwrap();
    pml4.map(&mut allocator, first, va(0x1000), true, false);
    assert_eq!(pml4.tables_to_create(va(0x2000), &layout), 0);
    assert_eq!(pml4.tables_to_create(va(0x20_0000), &layout), 1);
    assert_eq!(pml4.tables_to_create(va(0x4000_0000), &layout), 2);
    assert_eq!(pml4.tables_to_create(va(0x80_0000_0000), &layout), 3);
    let second = allocator.allocate().unwrap();
    assert!(allocator.has_free_pages(10));
    pml4.map(&mut allocator, second, va(0x2000), true, false);
    assert!(allocator.has_free_pages(10));
    assert!(!allocator.has_free_pages(11));
}

#[test]
fn walk_tells_where_it_ends() {
    let (layout, mut allocator) = setup(16);
    let mut pml4 = PML4::new(&mut allocator);
    assert_eq!(pml4.walk(va(0x1000), &layout).0, WalkEnd::Pml4);
    let frame = allocator.allocate().unwrap();
    pml4.map(&mut allocator, frame, va(0x1000), true, false);
    assert_eq!(pml4.walk(va(0x1000), &layout).0, WalkEnd::PageTable);
    assert_eq!(pml4.walk(va(0x2000), &layout).0, WalkEnd::PageTable);
    assert_eq!(pml4.walk(va(0x20_0000), &layout).0, WalkEnd::PageDirectory);
    assert_eq!(pml4.walk(va(0x4000_0000), &layout).0, WalkEnd::Pdpt);
    assert_eq!(pml4.walk(va(0x80_0000_0000), &layout).0, WalkEnd::Pml4);
}

#[test]
fn pages_are_enumerated_in_address_order() {
    let (layout, mut allocator) = setup(64);
    let mut pml4 = PML4::new(&mut allocator);
    let addresses: [u64; 6] = [
        0xFFFF_FFFF_FFFF_F000,
        0x0000_7FFF_FFFF_F000,
        0x0,
        0xFFFF_8000_0000_0000,
        0x0000_0000_4020_1000,
        0x0000_0000_0020_0000,
    ];
    let mut frames = Vec::new();
    for address in addresses {
        let frame = allocator.allocate().unwrap();
        frames.push((address, frame.get_starting_address().get_address()));
        pml4.map(&mut allocator, frame, va(address), true, false);
    }
    frames.sort();
    let mut seen = Vec::new();
    let mut iterator = pml4.iterator(layout);
    while let Some((address, frame)) = iterator.next() {
        seen.push((address.address(), frame.get_starting_address().get_address()));
    }
    assert_eq!(seen, frames);
}

#[test]
fn copy_maps_the_same_frames_through_other_tables() {
    let (layout, mut allocator) = setup(64);
    let mut pml4 = PML4::new(&mut allocator);
    let addresses: [u64; 3] = [0x1000, 0x4020_1000, 0xFFFF_8000_0000_0000];
    for address in addresses {
        let frame = allocator.allocate().unwrap();
        pml4.map(&mut allocator, frame, va(address), true, true);
    }
    // Three mapped frames and nine tables: the top-level table, three
    // tables for the first page, two more for the second, which shares a
    // page directory pointer table with the first, and three for the third.
    assert!(allocator.has_free_pages(64 - 3 - 9));
    assert!(!allocator.has_free_pages(64 - 3 - 9 + 1));
    let copy = pml4.copy(&mut allocator);
    assert!(allocator.has_free_pages(64 - 3 - 9 - 9));
    assert!(!allocator.has_free_pages(64 - 3 - 9 - 9 + 1));

    assert_ne!(
        copy.frame_start().get_address(),
        pml4.frame_start().get_address()
    );
    for index in 0..512 {
        let source = pml4.entry(index);
        let copied = copy.entry(index);
        assert_eq!(source.present(), copied.present());
        if source.present() {
            assert_ne!(source.internal_addr(), copied.internal_addr());
        } else {
            assert_eq!(source.into_bits(), copied.into_bits());
        }
    }

    let mut of_source = Vec::new();
    let mut iterator = pml4.iterator(layout);
    while let Some((address, frame)) = iterator.next() {
        of_source.push((address.address(), frame.get_starting_address().get_address()));
    }
    let mut of_copy = Vec::new();
    let mut iterator = copy.iterator(layout);
    while let Some((address, frame)) = iterator.next() {
        of_copy.push((address.address(), frame.get_starting_address().get_address()));
    }
    assert_eq!(of_source.len(), 3);
    assert_eq!(of_source, of_copy);
}

#[test]
fn mapping_in_a_copy_leaves_the_source_alone() {
    let (layout, mut allocator) = setup(64);
    let mut pml4 = PML4::new(&mut allocator);
    let frame = allocator.allocate().unwrap();
    pml4.map(&mut allocator, frame, va(0x1000), true, false);
    let mut copy = pml4.copy(&mut allocator);
    let frame = allocator.allocate().unwrap();
    copy.map(&mut allocator, frame, va(0x2000), true, false);
    assert!(copy.translate(va(0x2000), &layout).is_some());
    assert!(pml4.translate(va(0x2000), &layout).is_none());
    assert!(pml4.translate(va(0x1000), &layout).is_some());
}

#[test]
fn a_mapped_page_cannot_be_mapped_again() {
    let (layout, mut allocator) = setup(16);
    let mut pml4 = PML4::new(&mut allocator);
    let address = va(0x7000);
    assert!(pml4.translate(address, &layout).is_none());
    let frame = allocator.allocate().unwrap();
    pml4.map(&mut allocator, frame, address, true, false);
    // What `map` asks of its caller no longer holds of this page.
    assert!(pml4.translate(address, &layout).is_some());
}

#[test]
fn huge_page_entries_are_copied_as_they_are() {
    let (layout, mut allocator) = setup(16);
    let mut directory = PageDirectory::new(&mut allocator);
    let huge = PageDirectoryEntryHugePage::from_bits(0x8000_0000_4020_0083);
    directory.set_huge_page(7, huge, &layout);
    let copy = directory.copy(&mut allocator);
    assert_ne!(copy.frame_start().get_address(), directory.frame_start().get_address());
    match copy.entry(7).get_entry() {
        PageDirectoryEntry::HugePage(entry) => assert_eq!(entry.into_bits(), 0x8000_0000_4020_0083),
        PageDirectoryEntry::PageTable(_) => panic!("the entry maps a huge page"),
    }
    assert!(!copy.entry(6).present());
    // The directory and its copy took one frame each.
    assert!(allocator.has_free_pages(14));
    assert!(!allocator.has_free_pages(15));

    let mut pdpt = Pdpt::new(&mut allocator);
    pdpt.set_huge_page(0, PdptEntryHugePage::from_bits(0x4000_0081), &layout);
    let copy = pdpt.copy(&mut allocator);
    match copy.entry(0).get_entry() {
        PdptEntry::HugePage(entry) => assert_eq!(entry.into_bits(), 0x4000_0081),
        PdptEntry::PageDirectory(_) => panic!("the entry maps a huge page"),
    }
}

#[test]
fn tables_below_the_top_can_be_used_on_their_own() {
    let (layout, mut allocator) = setup(32);
    let mut table = PageTable::new(&mut allocator);
    let frame = allocator.allocate().unwrap();
    let frame_address = frame.get_starting_address().get_address();
    table.map(frame, va(0x5000), true, false, &layout);
    assert!(table.entry(5).present());
    assert!(table.entry(5).read_write());
    assert!(!table.entry(5).execute_disable());
    assert_eq!(table.entry(5).address(&layout).get_address(), frame_address);
    assert!(!table.entry(4).present());
    let copy = table.copy(&mut allocator);
    assert_eq!(copy.entry(5).into_bits(), table.entry(5).into_bits());
    assert_ne!(copy.frame_start().get_address(), table.frame_start().get_address());

    let mut directory = PageDirectory::new(&mut allocator);
    let frame = allocator.allocate().unwrap();
    directory.map(&mut allocator, frame, va(0x60_5000), false, false);
    assert!(directory.entry(3).present());
    assert!(!directory.entry(3).huge_page());
    assert!(!directory.entry(2).present());

    let mut pdpt = Pdpt::new(&mut allocator);
    let frame = allocator.allocate().unwrap();
    pdpt.map(&mut allocator, frame, va(0x8060_5000), false, false);
    assert!(pdpt.entry(2).present());
    assert!(!pdpt.entry(1).present());
}

#[test]
fn fresh_table_is_empty() {
    let (layout, mut allocator) = setup(4);
    let pml4 = PML4::new(&mut allocator);
    assert_eq!(pml4.frame_start().get_address(), 0x4000);
    for index in 0..512 {
        assert_eq!(pml4.entry(index).into_bits(), 0);
    }
    assert!(pml4.iterator(layout).next().is_none());
    assert!(pml4.translate(va(0), &layout).is_none());
    assert!(pml4.translate(va(0xFFFF_FFFF_FFFF_F000), &layout).is_none());
}

#[test]
fn enumeration_can_be_started_anew() {
    let (layout, mut allocator) = setup(16);
    let mut pml4 = PML4::new(&mut allocator);
    let frame = allocator.allocate().unwrap();
    pml4.map(&mut allocator, frame, va(0), true, false);
    let mut first = pml4.iterator(layout);
    assert_eq!(first.next().unwrap().0.address(), 0);
    assert!(first.next().is_none());
    let mut second = pml4.iterator(layout);
    assert_eq!(second.next().unwrap().0.address(), 0);
    assert!(second.next().is_none());
}

#[test]
fn tables_are_taken_from_the_allocator_in_order() {
    let (layout, mut allocator) = setup(16);
    // The run covers 0x1000 to 0x10FFF and is used up from its end.
    let mut pml4 = PML4::new(&mut allocator);
    assert_eq!(pml4.frame_start().get_address(), 0x10000);
    let frame = allocator.allocate().unwrap();
    assert_eq!(frame.get_starting_address().get_address(), 0xF000);
    pml4.map(&mut allocator, frame, va(0x1000), true, false);
    assert_eq!(pml4.entry(0).address(&layout).get_address(), 0xE000);
    assert!(pml4.entry(0).present());
    assert!(!pml4.entry(0).read_write());
    assert_eq!(allocator.allocate().unwrap().get_starting_address().get_address(), 0xB000);
}
