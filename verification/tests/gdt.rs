use kernel::x64::gdt::{
    AccessByte, Flags, Gdtr, SegmentDescriptor, SegmentSelector, DESCRIPTOR_TYPE, EXECUTABLE,
    GRANULARITY, LONG_MODE_CODE, PRESENT, READABLE_WRITABLE, SIZE,
};

#[test]
fn null_segment_descriptor_is_all_zero() {
    let descriptor = SegmentDescriptor::new_null_descriptor();
    assert_eq!(descriptor.get_limit(), 0);
    assert_eq!(descriptor.get_base(), 0);
    assert_eq!(descriptor.get_flags().bits(), 0);
    assert_eq!(descriptor.access_byte.bits(), 0);
}

#[test]
fn limit_has_twenty_bits() {
    let mut descriptor = SegmentDescriptor::new_null_descriptor();
    descriptor.set_flags(Flags::from_bits_retain(GRANULARITY | SIZE));
    descriptor.set_base(0xDEAD_BEEF);
    descriptor.set_limit(0xF_FFFF);
    assert_eq!(descriptor.get_limit(), 0xF_FFFF);
    assert_eq!(descriptor.get_flags().bits(), 0xC0);
    assert_eq!(descriptor.get_base(), 0xDEAD_BEEF);
    descriptor.set_limit(0xA_1234);
    assert_eq!(descriptor.get_limit(), 0xA_1234);
    descriptor.set_limit(0);
    assert_eq!(descriptor.get_limit(), 0);
    assert_eq!(descriptor.get_flags().bits(), 0xC0);
    assert_eq!(descriptor.get_base(), 0xDEAD_BEEF);
}

#[test]
fn base_is_spread_over_three_fields() {
    let mut descriptor = SegmentDescriptor::new_null_descriptor();
    descriptor.set_limit(0x5_4321);
    descriptor.set_base(0x1234_5678);
    assert_eq!(descriptor.get_base(), 0x1234_5678);
    assert_eq!(descriptor.get_limit(), 0x5_4321);
    descriptor.set_base(0xFFFF_FFFF);
    assert_eq!(descriptor.get_base(), 0xFFFF_FFFF);
    assert_eq!(descriptor.get_limit(), 0x5_4321);
}

#[test]
fn flags_share_a_byte_with_the_limit() {
    let mut descriptor = SegmentDescriptor::new_null_descriptor();
    descriptor.set_limit(0xF_0000);
    descriptor.set_flags(Flags::from_bits_retain(LONG_MODE_CODE));
    assert_eq!(descriptor.get_flags().bits(), 0x20);
    assert_eq!(descriptor.get_limit(), 0xF_0000);
    descriptor.set_flags(Flags::empty());
    assert_eq!(descriptor.get_flags().bits(), 0);
    assert_eq!(descriptor.get_limit(), 0xF_0000);
}

#[test]
fn kernel_descriptors_have_the_usual_access_bytes() {
    let code = SegmentDescriptor::new_kernel_code_descriptor();
    assert_eq!(code.access_byte.bits(), 0x9A);
    assert_eq!(code.get_flags().bits(), 0x20);
    assert_eq!(code.get_limit(), 0);
    assert_eq!(code.get_base(), 0);
    assert!(code.access_byte.contains(AccessByte::from_bits_retain(EXECUTABLE)));

    let data = SegmentDescriptor::new_kernel_data_descriptor();
    assert_eq!(data.access_byte.bits(), 0x92);
    assert_eq!(data.get_flags().bits(), 0);
    assert!(!data.access_byte.contains(AccessByte::from_bits_retain(EXECUTABLE)));
    assert!(data
        .access_byte
        .contains(AccessByte::from_bits_retain(PRESENT | DESCRIPTOR_TYPE | READABLE_WRITABLE)));
}

#[test]
fn flag_sets_combine() {
    let both = Flags::from_bits_retain(SIZE).union(Flags::from_bits_retain(GRANULARITY));
    assert_eq!(both.bits(), 0xC0);
    assert!(both.contains(Flags::from_bits_retain(SIZE)));
    assert!(!both.contains(Flags::from_bits_retain(LONG_MODE_CODE)));
    assert_eq!(AccessByte::empty().union(AccessByte::from_bits_retain(PRESENT)).bits(), 0x80);
    assert_eq!(AccessByte::empty(), AccessByte::from_bits_retain(0));
}

#[test]
fn selector_is_cut_into_index_table_and_level() {
    let selector = SegmentSelector { x: 0x002B };
    assert_eq!(selector.get_offset(), 0x28);
    assert_eq!(selector.get_index(), 5);
    assert!(selector.uses_gdt());
    assert_eq!(selector.privilege_level(), 3);

    let local = SegmentSelector { x: 0xFFFF };
    assert_eq!(local.get_offset(), 0xFFF8);
    assert_eq!(local.get_index(), 0x1FFF);
    assert!(!local.uses_gdt());
    assert_eq!(local.privilege_level(), 3);
}

#[test]
fn selector_is_put_together() {
    assert_eq!(SegmentSelector::new(5, false, 3).x, 0x2B);
    assert_eq!(SegmentSelector::new(5, true, 3).x, 0x2F);
    assert_eq!(SegmentSelector::new(0x1FFF, false, 0).x, 0xFFF8);
    assert_eq!(SegmentSelector::new(0, false, 0).x, 0);
    let selector = SegmentSelector::new(1, false, 0);
    assert_eq!(selector.get_index(), 1);
    assert_eq!(selector.get_offset(), 8);
    assert!(selector.uses_gdt());
    // The table bit is set when the flag is given.
    assert!(!SegmentSelector::new(1, true, 0).uses_gdt());
}

#[test]
fn register_value_covers_the_table() {
    let table = [
        SegmentDescriptor::new_null_descriptor(),
        SegmentDescriptor::new_kernel_code_descriptor(),
        SegmentDescriptor::new_kernel_data_descriptor(),
    ];
    let gdtr = Gdtr::from_segment_descriptors(&table, 0xFFFF_8000_0000_1000);
    assert_eq!(gdtr.size, 23);
    assert_eq!(gdtr.base, 0xFFFF_8000_0000_1000);
    assert_eq!(gdtr.get_segment_descriptor(&table, 1).unwrap().access_byte.bits(), 0x9A);
    assert_eq!(gdtr.get_segment_descriptor(&table, 2).unwrap().access_byte.bits(), 0x92);
    assert!(gdtr.get_segment_descriptor(&table, 3).is_none());
    assert!(gdtr.get_segment_descriptor(&table, usize::MAX).is_none());
}

#[test]
fn segment_descriptor_is_written_as_the_processor_reads_it() {
    let code = SegmentDescriptor::new_kernel_code_descriptor();
    assert_eq!(code.to_bytes(), vec![0, 0, 0, 0, 0, 0x9A, 0x20, 0]);
    let mut descriptor = SegmentDescriptor::new_kernel_data_descriptor();
    descriptor.set_limit(0xA_BCDE);
    descriptor.set_base(0x1234_5678);
    descriptor.set_flags(Flags::from_bits_retain(GRANULARITY));
    assert_eq!(descriptor.to_bytes(), vec![0xDE, 0xBC, 0x78, 0x56, 0x34, 0x92, 0x8A, 0x12]);
}

#[test]
fn segment_descriptor_is_read_from_its_bytes() {
    let descriptor = SegmentDescriptor::from_bytes(&[0xFF, 0xFF, 0x00, 0x00, 0x00, 0x9A, 0xAF, 0x00]);
    assert_eq!(descriptor.get_limit(), 0xF_FFFF);
    assert_eq!(descriptor.get_base(), 0);
    assert_eq!(descriptor.get_flags().bits(), 0xA0);
    assert_eq!(descriptor.access_byte.bits(), 0x9A);
    let bytes = [0x01, 0x02, 0x03, 0x04, 0x05, 0x06, 0x07, 0x08];
    assert_eq!(SegmentDescriptor::from_bytes(&bytes).to_bytes(), bytes.to_vec());
    assert_eq!(SegmentDescriptor::from_bytes(&bytes).get_base(), 0x0805_0403);
    assert_eq!(SegmentDescriptor::from_bytes(&bytes).get_limit(), 0x7_0201);
}
