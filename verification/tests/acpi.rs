use kernel::acpi::madt::{
    IOApic, IOApicInterruptSourceFlags, IOApicInterruptSourceOverride, LocalApicAddressOverride,
    LocalApicFlags, LocalApicNonmaskableInterrupts, MadtEntry, MadtEntryType, ProcessorLocalApic,
    ProcessorLocalApicFlags, ProcessorLocalX2Apic, MADT,
};
use kernel::acpi::root::{validate_checksum, RSDP32Bit, RSDP64Bit, SDTHeader, XSDT};

fn header(signature: [u8; 4], length: u32) -> SDTHeader {
    SDTHeader {
        signature,
        length,
        revision: 1,
        checksum: 0,
        oem_id: [0; 6],
        oem_table_id: [0; 8],
        oem_revision: 0,
        creator_id: 0,
        creator_revision: 0,
    }
}

#[test]
fn bytes_must_add_up_to_zero() {
    assert!(validate_checksum(&[]));
    assert!(validate_checksum(&[0]));
    assert!(!validate_checksum(&[1]));
    assert!(validate_checksum(&[1, 255]));
    assert!(validate_checksum(&[0x80, 0x80]));
    assert!(validate_checksum(&[200, 100, 212]));
    assert!(!validate_checksum(&[200, 100, 211]));
    assert!(validate_checksum(&[255; 256]));
}

#[test]
fn first_revision_root_pointer_is_summed_over_all_fields() {
    let mut rsdp = RSDP32Bit {
        signature: [0x52, 0x53, 0x44, 0x20, 0x50, 0x54, 0x52, 0x20],
        checksum: 0,
        oem_id: [0x42, 0x4F, 0x43, 0x48, 0x53, 0x20],
        revision: 0,
        rsdt_address: 0x0102_0304,
    };
    assert_eq!(rsdp.to_bytes().len(), 20);
    assert_eq!(&rsdp.to_bytes()[16..], &[0x04, 0x03, 0x02, 0x01]);
    let sum: u32 = rsdp.to_bytes().iter().map(|byte| *byte as u32).sum();
    assert!(!rsdp.checksum());
    rsdp.checksum = (256 - sum % 256) as u8;
    assert!(rsdp.checksum());
    rsdp.rsdt_address += 1;
    assert!(!rsdp.checksum());
    assert_eq!(rsdp.revision(), 0);
}

#[test]
fn second_revision_root_pointer_is_summed_over_all_fields() {
    let mut rsdp = RSDP64Bit {
        signature: [0x52, 0x53, 0x44, 0x20, 0x50, 0x54, 0x52, 0x20],
        checksum: 0,
        oem_id: [1, 2, 3, 4, 5, 6],
        revision: 2,
        deprecated: 0,
        length: 36,
        xsdt_address: 0x0000_0000_7FE1_4000,
        extended_checksum: 0,
        reserved: [0, 0, 0],
    };
    let bytes = rsdp.to_bytes();
    assert_eq!(bytes.len(), 36);
    assert_eq!(&bytes[20..24], &[36, 0, 0, 0]);
    assert_eq!(&bytes[24..32], &[0x00, 0x40, 0xE1, 0x7F, 0, 0, 0, 0]);
    let sum: u32 = bytes.iter().map(|byte| *byte as u32).sum();
    rsdp.extended_checksum = ((256 - sum % 256) % 256) as u8;
    assert!(rsdp.checksum());
    rsdp.reserved[2] = 1;
    assert!(!rsdp.checksum());
    assert_eq!(rsdp.xsdt_address(), 0x7FE1_4000);
}

#[test]
fn extended_table_counts_and_hands_out_its_addresses() {
    let mut table = vec![0u8; 36];
    table.extend_from_slice(&0x0000_0000_7FE1_3000u64.to_le_bytes());
    table.extend_from_slice(&0x0000_0001_0000_2000u64.to_le_bytes());
    let xsdt = XSDT { header: header([0x58, 0x53, 0x44, 0x54], 52) };
    assert_eq!(xsdt.length(), 2);
    assert_eq!(xsdt.get_pointer(&table, 0), 0x7FE1_3000);
    assert_eq!(xsdt.get_pointer(&table, 1), 0x1_0000_2000);
    assert_eq!(XSDT { header: header([0x58, 0x53, 0x44, 0x54], 36) }.length(), 0);
    assert_eq!(XSDT { header: header([0x58, 0x53, 0x44, 0x54], 43) }.length(), 0);
    assert_eq!(XSDT { header: header([0x58, 0x53, 0x44, 0x54], 44) }.length(), 1);
}

#[test]
fn table_is_valid_with_its_signature_and_sum() {
    let zero = [0u8; 36];
    let xsdt = XSDT { header: header([0x58, 0x53, 0x44, 0x54], 36) };
    assert!(xsdt.checksum(&zero));
    let mut off = zero;
    off[35] = 1;
    assert!(!xsdt.checksum(&off));
    let other = XSDT { header: header([0x52, 0x53, 0x44, 0x54], 36) };
    assert!(!other.checksum(&zero));

    let madt = MADT {
        header: header([0x41, 0x50, 0x49, 0x43], 44),
        local_apic_address: 0xFEE0_0000,
        local_apic_flags: LocalApicFlags { bits: 1 },
    };
    assert!(madt.checksum(&[0u8; 44]));
    assert!(!madt.checksum(&[1u8; 44]));
    assert!(madt.header.signature_is(0x41, 0x50, 0x49, 0x43));
    assert!(!madt.header.signature_is(0x41, 0x50, 0x49, 0x44));
}

#[test]
fn record_sizes_are_those_of_the_packed_records() {
    assert_eq!(MadtEntryType::ProcessorLocalApic.entry_size(), 6);
    assert_eq!(MadtEntryType::IOApic.entry_size(), 10);
    assert_eq!(MadtEntryType::IOApicInterruptSourceOverride.entry_size(), 8);
    assert_eq!(MadtEntryType::IOApicNonmaskableInterruptSource.entry_size(), 8);
    assert_eq!(MadtEntryType::LocalApicNonmaskableInterrupts.entry_size(), 4);
    assert_eq!(MadtEntryType::LocalApicAddressOverride.entry_size(), 10);
    assert_eq!(MadtEntryType::ProcessorLocalX2Apic.entry_size(), 14);
    assert_eq!(MadtEntryType::from_byte(0), Some(MadtEntryType::ProcessorLocalApic));
    assert_eq!(MadtEntryType::from_byte(5), Some(MadtEntryType::LocalApicAddressOverride));
    assert_eq!(MadtEntryType::from_byte(9), Some(MadtEntryType::ProcessorLocalX2Apic));
    assert_eq!(MadtEntryType::from_byte(6), None);
    assert_eq!(MadtEntryType::from_byte(255), None);
}

fn madt_with(records: &[u8]) -> (MADT, Vec<u8>) {
    let mut table = vec![0u8; 44];
    table.extend_from_slice(records);
    let madt = MADT {
        header: header([0x41, 0x50, 0x49, 0x43], table.len() as u32),
        local_apic_address: 0xFEE0_0000,
        local_apic_flags: LocalApicFlags { bits: 1 },
    };
    (madt, table)
}

#[test]
fn records_are_read_one_after_the_other() {
    let records = [
        // processor local APIC
        0, 8, 1, 2, 1, 0, 0, 0,
        // I/O APIC
        1, 12, 3, 0, 0x00, 0x00, 0xC0, 0xFE, 0x10, 0, 0, 0,
        // interrupt source override
        2, 10, 0, 9, 9, 0, 0, 0, 0x0D, 0x00,
        // local APIC non-maskable interrupts
        4, 6, 0xFF, 0x05, 0x00, 1,
        // local APIC address override
        5, 12, 0, 0, 0x00, 0x00, 0xE0, 0xFE, 1, 0, 0, 0,
        // processor local x2APIC
        9, 16, 0, 0, 0x00, 0x01, 0, 0, 3, 0, 0, 0, 7, 0, 0, 0,
    ];
    let (madt, table) = madt_with(&records);
    let mut entries = madt.entries(&table);
    assert_eq!(
        entries.next(),
        Some(MadtEntry::ProcessorLocalApic(ProcessorLocalApic {
            acpi_processor_id: 1,
            apic_id: 2,
            flags: ProcessorLocalApicFlags { bits: 1 },
        }))
    );
    assert_eq!(
        entries.next(),
        Some(MadtEntry::IOApic(IOApic {
            apic_id: 3,
            reserved: 0,
            address: 0xFEC0_0000,
            global_system_interrupt_base: 0x10,
        }))
    );
    assert_eq!(
        entries.next(),
        Some(MadtEntry::IOApicInterruptSourceOverride(IOApicInterruptSourceOverride {
            bus_source: 0,
            irq_source: 9,
            global_system_interrupt: 9,
            flags: IOApicInterruptSourceFlags { bits: 0x000D },
        }))
    );
    assert_eq!(
        entries.next(),
        Some(MadtEntry::LocalApicNonmaskableInterrupts(LocalApicNonmaskableInterrupts {
            acpi_processor_id: 0xFF,
            flags: IOApicInterruptSourceFlags { bits: 0x0005 },
            lint_number: 1,
        }))
    );
    assert_eq!(
        entries.next(),
        Some(MadtEntry::LocalApicAddressOverride(LocalApicAddressOverride {
            reserved: 0,
            physical_address: 0x1_FEE0_0000,
        }))
    );
    assert_eq!(
        entries.next(),
        Some(MadtEntry::ProcessorLocalX2Apic(ProcessorLocalX2Apic {
            reserved: 0,
            processor_local_x2apic_id: 0x100,
            flags: LocalApicFlags { bits: 3 },
            acpi_id: 7,
        }))
    );
    assert_eq!(entries.next(), None);
    assert_eq!(entries.next(), None);
}

#[test]
fn reading_stops_at_a_record_that_is_not_whole() {
    // An unknown type.
    let (madt, table) = madt_with(&[7, 8, 0, 0, 0, 0, 0, 0, 0, 8, 1, 2, 1, 0, 0, 0]);
    let mut entries = madt.entries(&table);
    assert_eq!(entries.next(), None);
    assert_eq!(entries.next(), None);
    // A record whose fields end beyond the table.
    let (madt, table) = madt_with(&[0, 8, 1, 2, 1, 0, 0]);
    assert_eq!(madt.entries(&table).next(), None);
    // A length that does not cover the two leading bytes.
    let (madt, table) = madt_with(&[0, 1, 1, 2, 1, 0, 0, 0]);
    assert_eq!(madt.entries(&table).next(), None);
    // An empty list of records.
    let (madt, table) = madt_with(&[]);
    assert_eq!(madt.entries(&table).next(), None);
    // A single type byte.
    let (madt, table) = madt_with(&[0]);
    assert_eq!(madt.entries(&table).next(), None);
}

#[test]
fn length_byte_says_where_the_next_record_starts() {
    // The first record says it is ten bytes long: two bytes of padding
    // follow its fields.
    let records = [0, 10, 1, 2, 1, 0, 0, 0, 0xAA, 0xBB, 0, 8, 5, 6, 0, 0, 0, 0];
    let (madt, table) = madt_with(&records);
    let mut entries = madt.entries(&table);
    assert!(entries.next().is_some());
    assert_eq!(
        entries.next(),
        Some(MadtEntry::ProcessorLocalApic(ProcessorLocalApic {
            acpi_processor_id: 5,
            apic_id: 6,
            flags: ProcessorLocalApicFlags { bits: 0 },
        }))
    );
    assert_eq!(entries.next(), None);
    // A length that leads beyond the table ends the reading after the
    // record.
    let (madt, table) = madt_with(&[0, 200, 1, 2, 1, 0, 0, 0]);
    let mut entries = madt.entries(&table);
    assert!(entries.next().is_some());
    assert_eq!(entries.next(), None);
}

#[test]
fn root_pointers_are_read_from_their_bytes() {
    let mut bytes: Vec<u8> = (1..=36).collect();
    bytes[15] = 2;
    let rsdp = RSDP32Bit::from_bytes(&bytes[..20]);
    assert_eq!(rsdp.signature, [1, 2, 3, 4, 5, 6, 7, 8]);
    assert_eq!(rsdp.checksum, 9);
    assert_eq!(rsdp.oem_id, [10, 11, 12, 13, 14, 15]);
    assert_eq!(rsdp.revision(), 2);
    assert_eq!(rsdp.rsdt_address, 0x1413_1211);
    assert_eq!(rsdp.to_bytes(), bytes[..20].to_vec());

    let rsdp = RSDP64Bit::from_bytes(&bytes);
    assert_eq!(rsdp.signature, [1, 2, 3, 4, 5, 6, 7, 8]);
    assert_eq!(rsdp.revision, 2);
    assert_eq!(rsdp.deprecated, 0x1413_1211);
    assert_eq!(rsdp.length, 0x1817_1615);
    assert_eq!(rsdp.xsdt_address(), 0x201F_1E1D_1C1B_1A19);
    assert_eq!(rsdp.extended_checksum, 33);
    assert_eq!(rsdp.reserved, [34, 35, 36]);
    assert_eq!(rsdp.to_bytes(), bytes);
}

#[test]
fn table_header_is_read_from_its_bytes() {
    let bytes: Vec<u8> = (1..=40).collect();
    let header = SDTHeader::from_bytes(&bytes);
    assert_eq!(header.signature, [1, 2, 3, 4]);
    assert_eq!(header.length, 0x0807_0605);
    assert_eq!(header.revision, 9);
    assert_eq!(header.checksum, 10);
    assert_eq!(header.oem_id, [11, 12, 13, 14, 15, 16]);
    assert_eq!(header.oem_table_id, [17, 18, 19, 20, 21, 22, 23, 24]);
    assert_eq!(header.oem_revision, 0x1C1B_1A19);
    assert_eq!(header.creator_id, 0x201F_1E1D);
    assert_eq!(header.creator_revision, 0x2423_2221);
}

#[test]
fn interrupt_controller_table_is_read_from_its_bytes() {
    let mut table = vec![0u8; 44];
    table[..4].copy_from_slice(&[0x41, 0x50, 0x49, 0x43]);
    table[4..8].copy_from_slice(&52u32.to_le_bytes());
    table[36..40].copy_from_slice(&0xFEE0_0000u32.to_le_bytes());
    table[40..44].copy_from_slice(&1u32.to_le_bytes());
    table.extend_from_slice(&[0, 8, 0, 0, 1, 0, 0, 0]);
    let madt = MADT::from_bytes(&table);
    assert!(madt.header.signature_is(0x41, 0x50, 0x49, 0x43));
    assert_eq!(madt.header.length, 52);
    assert_eq!(madt.local_apic_address, 0xFEE0_0000);
    assert_eq!(madt.local_apic_flags, LocalApicFlags { bits: 1 });
    let mut entries = madt.entries(&table);
    assert!(entries.next().is_some());
    assert!(entries.next().is_none());
}
