use kernel::memory::{
    DirectMappedAddress, MemoryLayout, PhysicalAddress, VirtualAddress, HIGHER_HALF_START,
    LOWER_HALF_END, PAGE_SIZE,
};

const DIRECT_MAP_START: u64 = 0xFFFF_8000_0000_0000;

fn layout() -> MemoryLayout {
    MemoryLayout::new(DIRECT_MAP_START, 0x10_0000).unwrap()
}

#[test]
fn physical_addresses_lie_above_page_zero_and_inside_memory() {
    let layout = layout();
    assert!(PhysicalAddress::new(0, &layout).is_none());
    assert!(PhysicalAddress::new(0xFFF, &layout).is_none());
    assert_eq!(PhysicalAddress::new(0x1000, &layout).unwrap().get_address(), 0x1000);
    assert_eq!(PhysicalAddress::new(0xF_FFFF, &layout).unwrap().get_address(), 0xF_FFFF);
    assert!(PhysicalAddress::new(0x10_0000, &layout).is_none());
    assert!(PhysicalAddress::new(u64::MAX, &layout).is_none());
}

#[test]
fn no_physical_address_fits_memory_of_one_page() {
    let layout = MemoryLayout::new(DIRECT_MAP_START, 0x1000).unwrap();
    assert!(PhysicalAddress::new(0x0, &layout).is_none());
    assert!(PhysicalAddress::new(0xFFF, &layout).is_none());
    assert!(PhysicalAddress::new(0x1000, &layout).is_none());
}

#[test]
fn frame_alignment_looks_at_the_low_twelve_bits() {
    let layout = layout();
    assert!(PhysicalAddress::new(0x1000, &layout).unwrap().is_frame_aligned());
    assert!(PhysicalAddress::new(0xF_F000, &layout).unwrap().is_frame_aligned());
    assert!(!PhysicalAddress::new(0x1001, &layout).unwrap().is_frame_aligned());
    assert!(!PhysicalAddress::new(0x1800, &layout).unwrap().is_frame_aligned());
    assert!(!PhysicalAddress::new(0x1FFF, &layout).unwrap().is_frame_aligned());
}

#[test]
fn virtual_addresses_must_be_canonical() {
    assert!(VirtualAddress::create(0).is_some());
    assert!(VirtualAddress::create(0x0000_7FFF_FFFF_FFFF).is_some());
    assert!(VirtualAddress::create(0x0000_8000_0000_0000).is_none());
    assert!(VirtualAddress::create(0x8000_0000_0000_0000).is_none());
    assert!(VirtualAddress::create(0xFFFF_7FFF_FFFF_FFFF).is_none());
    assert!(VirtualAddress::create(0xFFFF_8000_0000_0000).is_some());
    assert!(VirtualAddress::create(0xFFFF_FFFF_FFFF_FFFF).is_some());
    // One bit of the sign extension that differs is enough.
    assert!(VirtualAddress::create(0x0001_0000_0000_0000).is_none());
    assert!(VirtualAddress::create(0xFFFE_8000_0000_0000).is_none());
}

#[test]
fn virtual_address_is_cut_into_its_fields() {
    let address = VirtualAddress::create(0xFFFF_8123_4567_89AB).unwrap();
    assert_eq!(address.address(), 0xFFFF_8123_4567_89AB);
    assert_eq!(address.page_offset(), 0x9AB);
    assert_eq!(address.page_table_index(), 0x078);
    assert_eq!(address.page_directory_index(), 0x02B);
    assert_eq!(address.pdpt_index(), 0x08D);
    assert_eq!(address.pml4_index(), 0x102);
    assert_eq!(address.sign_extension(), 0xFFFF);
}

#[test]
fn fields_put_together_give_the_address_back() {
    for value in [
        0u64,
        0x1000,
        0x0000_7FFF_FFFF_FFFF,
        0xFFFF_8000_0000_0000,
        0xFFFF_8123_4567_89AB,
        0x0000_1234_5678_9ABC,
        0xFFFF_FFFF_FFFF_FFFF,
    ] {
        let address = VirtualAddress::create(value).unwrap();
        let again = VirtualAddress::from_fields(
            address.sign_extension(),
            address.pml4_index(),
            address.pdpt_index(),
            address.page_directory_index(),
            address.page_table_index(),
            address.page_offset(),
        )
        .unwrap();
        assert_eq!(again.address(), value);
    }
}

#[test]
fn fields_with_the_wrong_sign_extension_are_rejected() {
    assert!(VirtualAddress::from_fields(0xFFFF, 0, 0, 0, 0, 0).is_none());
    assert!(VirtualAddress::from_fields(0, 256, 0, 0, 0, 0).is_none());
    assert!(VirtualAddress::from_fields(0x00FF, 256, 0, 0, 0, 0).is_none());
    assert_eq!(
        VirtualAddress::from_fields(0xFFFF, 256, 0, 0, 0, 0).unwrap().address(),
        0xFFFF_8000_0000_0000
    );
    assert_eq!(
        VirtualAddress::from_fields(0, 255, 511, 511, 511, 4095).unwrap().address(),
        0x0000_7FFF_FFFF_FFFF
    );
}

#[test]
fn setters_change_one_field() {
    let mut address = VirtualAddress::create(0).unwrap();
    address.set_page_table_index(1);
    assert_eq!(address.address(), 0x1000);
    address.set_page_directory_index(1);
    assert_eq!(address.address(), 0x20_1000);
    address.set_pdpt_index(1);
    assert_eq!(address.address(), 0x4020_1000);
    address.set_pml4_index(1);
    assert_eq!(address.address(), 0x80_4020_1000);
    address.set_page_offset(0xFFF);
    assert_eq!(address.address(), 0x80_4020_1FFF);
    address.set_sign_extension(0xFFFF);
    assert_eq!(address.address(), 0xFFFF_0080_4020_1FFF);
    address.set_page_table_index(0);
    assert_eq!(address.address(), 0xFFFF_0080_4020_0FFF);
    assert_eq!(address.pml4_index(), 1);
    assert_eq!(address.pdpt_index(), 1);
    assert_eq!(address.page_directory_index(), 1);
}

#[test]
fn layout_must_fit_one_canonical_half() {
    assert!(MemoryLayout::new(0, 0x1000).is_some());
    assert!(MemoryLayout::new(0, LOWER_HALF_END).is_some());
    assert!(MemoryLayout::new(0, LOWER_HALF_END + 1).is_none());
    assert!(MemoryLayout::new(0x1000, LOWER_HALF_END).is_none());
    assert!(MemoryLayout::new(LOWER_HALF_END, 0x1000).is_none());
    assert!(MemoryLayout::new(HIGHER_HALF_START - 1, 0x1000).is_none());
    assert!(MemoryLayout::new(HIGHER_HALF_START, 0x1000).is_some());
    assert!(MemoryLayout::new(HIGHER_HALF_START, LOWER_HALF_END).is_some());
    assert!(MemoryLayout::new(HIGHER_HALF_START, LOWER_HALF_END + 1).is_none());
    assert!(MemoryLayout::new(u64::MAX, 1).is_some());
    assert!(MemoryLayout::new(u64::MAX, 2).is_none());
    assert!(MemoryLayout::new(u64::MAX, 0).is_some());
}

#[test]
fn direct_map_adds_and_takes_off_its_start() {
    let layout = layout();
    let physical = PhysicalAddress::new(0x5008, &layout).unwrap();
    let direct = DirectMappedAddress::from_physical(physical);
    assert_eq!(direct.get_physical_address().get_address(), 0x5008);
    assert_eq!(direct.get_virtual_address(&layout).address(), DIRECT_MAP_START + 0x5008);

    let back = DirectMappedAddress::from_virtual(
        VirtualAddress::create(DIRECT_MAP_START + 0x5008).unwrap(),
        &layout,
    );
    assert_eq!(back.get_physical_address().get_address(), 0x5008);
}

#[test]
fn try_from_virtual_checks_both_ends_of_the_direct_map() {
    let layout = layout();
    let at = |address: u64| {
        DirectMappedAddress::try_from_virtual(VirtualAddress::create(address).unwrap(), &layout)
    };
    assert!(at(0x1000).is_none());
    assert!(at(DIRECT_MAP_START).is_none());
    assert_eq!(at(DIRECT_MAP_START + 1).unwrap().get_physical_address().get_address(), 1);
    assert_eq!(
        at(DIRECT_MAP_START + 0xF_FFFF).unwrap().get_physical_address().get_address(),
        0xF_FFFF
    );
    assert!(at(DIRECT_MAP_START + 0x10_0000).is_none());
    assert!(at(0xFFFF_FFFF_FFFF_FFFF).is_none());
}

#[test]
fn pointer_needs_room_and_alignment() {
    let layout = layout();
    let at = |address: u64| {
        DirectMappedAddress::from_physical(PhysicalAddress::new(address, &layout).unwrap())
    };
    assert_eq!(at(0x2000).as_pointer::<u64>(&layout), Some(DIRECT_MAP_START + 0x2000));
    assert_eq!(at(0x2004).as_pointer::<u32>(&layout), Some(DIRECT_MAP_START + 0x2004));
    assert_eq!(at(0x2004).as_pointer::<u64>(&layout), None);
    assert_eq!(at(0x2001).as_pointer::<u8>(&layout), Some(DIRECT_MAP_START + 0x2001));
    assert_eq!(at(0x2001).as_pointer::<u16>(&layout), None);
    // The last eight bytes of memory hold one more u64, the last four do not.
    assert_eq!(at(0xF_FFF8).as_pointer::<u64>(&layout), Some(DIRECT_MAP_START + 0xF_FFF8));
    assert_eq!(at(0xF_FFFC).as_pointer::<u32>(&layout), Some(DIRECT_MAP_START + 0xF_FFFC));
    assert_eq!(at(0xF_FFFC).as_pointer::<[u32; 2]>(&layout), None);
}

#[test]
fn pointer_with_size_uses_the_given_size() {
    let layout = layout();
    let direct = DirectMappedAddress::from_physical(PhysicalAddress::new(0xF_F000, &layout).unwrap());
    assert_eq!(
        direct.as_pointer_with_size::<u8>(0x1000, &layout),
        Some(DIRECT_MAP_START + 0xF_F000)
    );
    assert_eq!(direct.as_pointer_with_size::<u8>(0x1001, &layout), None);
    assert_eq!(direct.as_pointer_with_size::<u8>(0, &layout), Some(DIRECT_MAP_START + 0xF_F000));
    assert_eq!(
        direct.as_pointer_aligned(PAGE_SIZE, PAGE_SIZE, &layout),
        Some(DIRECT_MAP_START + 0xF_F000)
    );
    let inside = DirectMappedAddress::from_physical(PhysicalAddress::new(0xF_F008, &layout).unwrap());
    assert_eq!(inside.as_pointer_aligned(8, PAGE_SIZE, &layout), None);
    assert_eq!(inside.as_pointer_aligned(8, 8, &layout), Some(DIRECT_MAP_START + 0xF_F008));
}
