use kernel::x64::gdt::SegmentSelector;
use kernel::x64::idt::{GateDescriptor, GateType, Idt, Idtr};
use kernel::x64::registers::Cr3;

#[test]
fn null_gate_descriptor_is_all_zero() {
    let descriptor = GateDescriptor::create_null_descriptor();
    assert_eq!(descriptor.get_offset(), 0);
    assert_eq!(descriptor.get_ist(), 0);
    assert_eq!(descriptor.get_dpl(), 0);
    assert!(!descriptor.present());
    assert_eq!(descriptor.segment_selector.x, 0);
}

#[test]
fn offset_is_spread_over_three_fields() {
    let mut descriptor = GateDescriptor::create_null_descriptor();
    descriptor.set_ist(5);
    descriptor.set_dpl(3);
    descriptor.set_offset(0xFFFF_8000_1234_5678);
    assert_eq!(descriptor.get_offset(), 0xFFFF_8000_1234_5678);
    assert_eq!(descriptor.get_ist(), 5);
    assert_eq!(descriptor.get_dpl(), 3);
    descriptor.set_offset(0);
    assert_eq!(descriptor.get_offset(), 0);
    assert_eq!(descriptor.get_ist(), 5);
}

#[test]
fn type_level_and_present_bit_share_a_byte() {
    let mut descriptor = GateDescriptor::create_null_descriptor();
    descriptor.set_gate_type(GateType::InterruptGate);
    assert_eq!(descriptor.get_gate_type(), GateType::InterruptGate);
    descriptor.set_dpl(2);
    assert_eq!(descriptor.get_dpl(), 2);
    assert_eq!(descriptor.get_gate_type(), GateType::InterruptGate);
    descriptor.set_present(true);
    assert!(descriptor.present());
    assert_eq!(descriptor.get_dpl(), 2);
    descriptor.set_present(false);
    assert!(!descriptor.present());
    assert_eq!(descriptor.get_gate_type(), GateType::InterruptGate);
    // Bits are only ever added to the type and to the level.
    descriptor.set_gate_type(GateType::TrapGate);
    assert_eq!(descriptor.get_gate_type(), GateType::TrapGate);
    descriptor.set_gate_type(GateType::InterruptGate);
    assert_eq!(descriptor.get_gate_type(), GateType::TrapGate);
    descriptor.set_dpl(1);
    assert_eq!(descriptor.get_dpl(), 3);
}

#[test]
fn exception_handler_is_a_present_trap_descriptor() {
    let cs = SegmentSelector::new(1, false, 0);
    let handler = GateDescriptor::create_exception_handler(0xFFFF_FFFF_8000_1000, cs);
    assert_eq!(handler.get_offset(), 0xFFFF_FFFF_8000_1000);
    assert_eq!(handler.segment_selector.x, 8);
    assert_eq!(handler.get_gate_type(), GateType::TrapGate);
    assert!(handler.present());
    assert_eq!(handler.get_ist(), 0);
    assert_eq!(handler.get_dpl(), 0);
}

#[test]
fn handlers_go_to_their_vectors() {
    let cs = SegmentSelector::new(1, false, 0);
    let mut idt = Idt::new();
    idt.set_page_fault_handler(0x1000, cs);
    idt.set_general_protection_fault_handler(0x2000, cs);
    idt.set_double_fault_handler(0x3000, cs);
    for vector in 0..=255u8 {
        let descriptor = idt.gate_descriptor(vector);
        match vector {
            0xE => assert_eq!(descriptor.get_offset(), 0x1000),
            0xD => assert_eq!(descriptor.get_offset(), 0x2000),
            0x8 => assert_eq!(descriptor.get_offset(), 0x3000),
            _ => {
                assert_eq!(descriptor.get_offset(), 0);
                assert!(!descriptor.present());
            }
        }
    }
    let mut custom = GateDescriptor::create_null_descriptor();
    custom.set_offset(0x4000);
    idt.set_gate_descriptor(0x80, custom);
    assert_eq!(idt.gate_descriptor(0x80).get_offset(), 0x4000);
    assert_eq!(idt.gate_descriptor(0xE).get_offset(), 0x1000);
}

#[test]
fn register_value_covers_all_vectors() {
    let idt = Idt::new();
    let idtr = idt.get_idtr(0xFFFF_8000_0000_2000);
    assert_eq!(idtr.size, 4095);
    assert_eq!(idtr.base, 0xFFFF_8000_0000_2000);
    let two = [GateDescriptor::create_null_descriptor(); 2];
    assert_eq!(Idtr::from_gate_descriptors(&two, 0x10).size, 31);
    assert_eq!(Idtr::from_gate_descriptors(&two[..1], 0x10).size, 15);
}

#[test]
fn control_register_three_holds_the_table_address() {
    assert_eq!(Cr3::new(0x1234_5678).address(), 0x1234_5000);
    assert_eq!(Cr3::new(0xFFFF_FFFF_FFFF_FFFF).address(), 0x000F_FFFF_FFFF_F000);
    assert_eq!(Cr3::new(0xFFF).address(), 0);
    assert_eq!(Cr3::new(0x8000_0000_0000_1018).address(), 0x1000);
}

#[test]
fn gate_descriptor_is_written_as_the_processor_reads_it() {
    let cs = SegmentSelector::new(5, false, 0);
    let handler = GateDescriptor::create_exception_handler(0x1122_3344_5566_7788, cs);
    assert_eq!(
        handler.to_bytes(),
        vec![0x88, 0x77, 0x28, 0x00, 0x00, 0x8F, 0x66, 0x55, 0x44, 0x33, 0x22, 0x11, 0, 0, 0, 0]
    );
    let mut descriptor = GateDescriptor::create_null_descriptor();
    assert_eq!(descriptor.to_bytes(), vec![0; 16]);
    descriptor.set_ist(7);
    descriptor.set_gate_type(GateType::InterruptGate);
    descriptor.set_dpl(3);
    assert_eq!(descriptor.to_bytes()[4], 7);
    assert_eq!(descriptor.to_bytes()[5], 0x6E);
}
