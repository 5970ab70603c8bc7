use kernel::memory::{MemoryLayout, PhysicalAddress};
use kernel::pmm::Frame;
use kernel::x64::entry::{
    PageDirectoryEntry, PageDirectoryEntryHugePage, PageDirectoryEntryPageTable,
    PageDirectoryEntryUnion, PageTableEntry, PdptEntry, PdptEntryHugePage, PdptEntryPageDirectory,
    PdptEntryUnion, Pml4Entry,
};

const DIRECT_MAP_START: u64 = 0xFFFF_8000_0000_0000;

fn layout() -> MemoryLayout {
    MemoryLayout::new(DIRECT_MAP_START, 0x1_0000_0000).unwrap()
}

#[test]
fn flags_sit_at_their_bits() {
    let mut entry = PageTableEntry::new();
    assert_eq!(entry.into_bits(), 0);
    entry.set_present(true);
    assert_eq!(entry.into_bits(), 1);
    entry.set_read_write(true);
    assert_eq!(entry.into_bits(), 0b11);
    entry.set_user_supervisor(true);
    assert_eq!(entry.into_bits(), 0b111);
    entry.set_accessed(true);
    assert_eq!(entry.into_bits(), 0b10_0111);
    entry.set_execute_disable(true);
    assert_eq!(entry.into_bits(), 0x8000_0000_0000_0027);
    entry.set_present(false);
    assert_eq!(entry.into_bits(), 0x8000_0000_0000_0026);
    assert!(!entry.present());
    assert!(entry.read_write());
    assert!(entry.user_supervisor());
    assert!(entry.accessed());
    assert!(entry.execute_disable());
}

#[test]
fn address_field_starts_at_bit_twelve() {
    let layout = layout();
    let mut entry = Pml4Entry::from_bits(0x8000_0000_0000_0FFF);
    entry.set_address(PhysicalAddress::new(0x1234_5000, &layout).unwrap());
    assert_eq!(entry.into_bits(), 0x8000_0000_1234_5FFF);
    assert_eq!(entry.internal_addr(), 0x12345);
    assert_eq!(entry.address(&layout).get_address(), 0x1234_5000);
    entry.set_internal_addr(0xFF_FFFF_FFFF);
    assert_eq!(entry.into_bits(), 0x800F_FFFF_FFFF_FFFF);
    entry.set_internal_addr(0);
    assert_eq!(entry.into_bits(), 0x8000_0000_0000_0FFF);
}

#[test]
fn top_level_entry_drops_the_offset_inside_the_page() {
    let layout = layout();
    let mut entry = Pml4Entry::new();
    entry.set_address(PhysicalAddress::new(0x5678, &layout).unwrap());
    assert_eq!(entry.address(&layout).get_address(), 0x5000);
}

#[test]
fn table_pointers_go_through_the_direct_map() {
    let layout = layout();
    let mut entry = Pml4Entry::new();
    entry.set_pdpt(DIRECT_MAP_START + 0x7000, &layout);
    assert_eq!(entry.address(&layout).get_address(), 0x7000);
    assert_eq!(entry.pdpt(&layout), DIRECT_MAP_START + 0x7000);

    let mut entry = PdptEntryPageDirectory::new();
    entry.set_page_directory(DIRECT_MAP_START + 0x9000, &layout);
    assert_eq!(entry.address(&layout).get_address(), 0x9000);
    assert_eq!(entry.page_directory(&layout), DIRECT_MAP_START + 0x9000);

    let mut entry = PageDirectoryEntryPageTable::new();
    entry.set_page_table(DIRECT_MAP_START + 0xB000, &layout);
    assert_eq!(entry.address(&layout).get_address(), 0xB000);
    assert_eq!(entry.page_table(&layout), DIRECT_MAP_START + 0xB000);
}

#[test]
fn page_size_bit_tells_the_two_kinds_apart() {
    match PdptEntryUnion::new(0x81).get_entry() {
        PdptEntry::HugePage(entry) => assert_eq!(entry.into_bits(), 0x81),
        PdptEntry::PageDirectory(_) => panic!("bit 7 is set"),
    }
    match PdptEntryUnion::new(0x7F).get_entry() {
        PdptEntry::PageDirectory(entry) => assert_eq!(entry.into_bits(), 0x7F),
        PdptEntry::HugePage(_) => panic!("bit 7 is clear"),
    }
    match PageDirectoryEntryUnion::new(0xFFFF_FFFF_FFFF_FFFF).get_entry() {
        PageDirectoryEntry::HugePage(entry) => assert_eq!(entry.into_bits(), u64::MAX),
        PageDirectoryEntry::PageTable(_) => panic!("bit 7 is set"),
    }
    match PageDirectoryEntryUnion::new(0).get_entry() {
        PageDirectoryEntry::PageTable(entry) => assert_eq!(entry.into_bits(), 0),
        PageDirectoryEntry::HugePage(_) => panic!("bit 7 is clear"),
    }
    assert!(PdptEntryUnion::new(0x81).present());
    assert!(!PdptEntryUnion::new(0x80).present());
    assert!(PageDirectoryEntryUnion::new(0x80).huge_page());
    assert!(!PageDirectoryEntryUnion::new(0x01).huge_page());
    assert!(PageDirectoryEntryUnion::new(0x01).present());
}

#[test]
fn huge_page_addresses_use_their_own_fields() {
    let layout = MemoryLayout::new(DIRECT_MAP_START, 0x100_0000_0000).unwrap();
    let mut gigabyte = PdptEntryHugePage::new();
    gigabyte.set_internal_addr(3);
    assert_eq!(gigabyte.into_bits(), 3 << 30);
    assert_eq!(gigabyte.address(&layout).get_address(), 0xC000_0000);
    gigabyte.set_page_size(true);
    assert!(gigabyte.page_size());
    assert_eq!(gigabyte.into_bits(), (3 << 30) | 0x80);

    let mut two_megabytes = PageDirectoryEntryHugePage::new();
    two_megabytes.set_internal_addr(5);
    assert_eq!(two_megabytes.into_bits(), 5 << 21);
    assert_eq!(two_megabytes.address(), 0xA0_0000);
    assert_eq!(PageDirectoryEntryHugePage::from_bits(u64::MAX).address(), 0x7FFF_FFFF << 21);
}

#[test]
fn leaf_entry_maps_a_frame() {
    let layout = layout();
    let frame = Frame::from_starting_address(PhysicalAddress::new(0x4_2000, &layout).unwrap());
    let mut entry = PageTableEntry::new();
    entry.set_frame(frame);
    assert_eq!(entry.into_bits(), 0x4_2000);
    assert_eq!(entry.frame(&layout).get_starting_address().get_address(), 0x4_2000);
    assert_eq!(entry.address(&layout).get_address(), 0x4_2000);
}

#[test]
fn undecided_entries_keep_the_word() {
    let mut reference = PdptEntryPageDirectory::from_bits(0x1234_5003);
    reference.set_accessed(true);
    match PdptEntryUnion::from_page_directory(reference).get_entry() {
        PdptEntry::PageDirectory(entry) => assert_eq!(entry.into_bits(), 0x1234_5023),
        PdptEntry::HugePage(_) => panic!("bit 7 is clear"),
    }
    let huge = PageDirectoryEntryHugePage::from_bits(0x8000_0000_0020_0081);
    match PageDirectoryEntryUnion::from_huge_page(huge).get_entry() {
        PageDirectoryEntry::HugePage(entry) => assert_eq!(entry.into_bits(), 0x8000_0000_0020_0081),
        PageDirectoryEntry::PageTable(_) => panic!("bit 7 is set"),
    }
}
