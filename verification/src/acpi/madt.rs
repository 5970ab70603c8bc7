//! The multiple APIC description table.
//!
//! After its header and two fields of its own the table holds a list of
//! records about the interrupt controllers of the machine. Each record
//! starts with a byte for its type and a byte for its length, counted from
//! the type byte on.

use crate::acpi::root::{sums_to_zero, validate_checksum, SDTHeader};
use crate::bytes::{read_u16, read_u32, read_u64, u16_at, u32_at, u64_at};
use vstd::prelude::*;

verus! {

/// The offset of the first record in the table, in bytes.
pub const MADT_ENTRIES_OFFSET: usize = 0x2C;

/// The flags of the table.
#[derive(Clone, Copy, Debug, PartialEq, Eq, Structural)]
pub struct LocalApicFlags {
    pub bits: u32,
}

/// The machine also has the two legacy interrupt controllers.
pub const LEGACY_PICS: u32 = 0x1;

/// The flags of a processor's local interrupt controller.
#[derive(Clone, Copy, Debug, PartialEq, Eq, Structural)]
pub struct ProcessorLocalApicFlags {
    pub bits: u32,
}

/// The processor is ready for use.
pub const PROCESSOR_ENABLED: u32 = 0x1;

/// The processor can be brought up.
pub const ONLINE_CAPABLE: u32 = 0x2;

/// The flags of an interrupt source.
#[derive(Clone, Copy, Debug, PartialEq, Eq, Structural)]
pub struct IOApicInterruptSourceFlags {
    pub bits: u16,
}

/// The source is active when low.
pub const ACTIVE_LOW: u16 = 0x10;

/// The source is level triggered.
pub const LEVEL_TRIGGERED: u16 = 0x1000;

/// The multiple APIC description table without its records.
#[derive(Clone, Copy, Debug)]
pub struct MADT {
    pub header: SDTHeader,
    pub local_apic_address: u32,
    pub local_apic_flags: LocalApicFlags,
}

/// The type of a record.
#[derive(Clone, Copy, Debug, PartialEq, Eq, Structural)]
pub enum MadtEntryType {
    ProcessorLocalApic,
    IOApic,
    IOApicInterruptSourceOverride,
    IOApicNonmaskableInterruptSource,
    LocalApicNonmaskableInterrupts,
    LocalApicAddressOverride,
    ProcessorLocalX2Apic,
}

/// A processor and its local interrupt controller.
#[derive(Clone, Copy, Debug, PartialEq, Eq, Structural)]
pub struct ProcessorLocalApic {
    pub acpi_processor_id: u8,
    pub apic_id: u8,
    pub flags: ProcessorLocalApicFlags,
}

/// An I/O interrupt controller and the first interrupt that it serves.
#[derive(Clone, Copy, Debug, PartialEq, Eq, Structural)]
pub struct IOApic {
    pub apic_id: u8,
    pub reserved: u8,
    pub address: u32,
    pub global_system_interrupt_base: u32,
}

/// A legacy interrupt that arrives at another input than its number says.
#[derive(Clone, Copy, Debug, PartialEq, Eq, Structural)]
pub struct IOApicInterruptSourceOverride {
    pub bus_source: u8,
    pub irq_source: u8,
    pub global_system_interrupt: u32,
    pub flags: IOApicInterruptSourceFlags,
}

/// An input of an I/O interrupt controller that raises non-maskable
/// interrupts.
#[derive(Clone, Copy, Debug, PartialEq, Eq, Structural)]
pub struct IOApicNonmaskableInterruptSource {
    pub non_maskable_interrupt_source: u8,
    pub reserved: u8,
    pub flags: IOApicInterruptSourceFlags,
    pub global_system_interrupt: u32,
}

/// The pin of a local interrupt controller that receives non-maskable
/// interrupts.
#[derive(Clone, Copy, Debug, PartialEq, Eq, Structural)]
pub struct LocalApicNonmaskableInterrupts {
    pub acpi_processor_id: u8,
    pub flags: IOApicInterruptSourceFlags,
    pub lint_number: u8,
}

/// The 64-bit address of the local interrupt controllers, which takes the
/// place of the 32-bit address in the table.
#[derive(Clone, Copy, Debug, PartialEq, Eq, Structural)]
pub struct LocalApicAddressOverride {
    pub reserved: u16,
    pub physical_address: u64,
}

/// A processor and its local interrupt controller in x2APIC mode.
#[derive(Clone, Copy, Debug, PartialEq, Eq, Structural)]
pub struct ProcessorLocalX2Apic {
    pub reserved: u16,
    pub processor_local_x2apic_id: u32,
    pub flags: LocalApicFlags,
    pub acpi_id: u32,
}

/// A record of the table.
#[derive(Clone, Copy, Debug, PartialEq, Eq, Structural)]
pub enum MadtEntry {
    ProcessorLocalApic(ProcessorLocalApic),
    IOApic(IOApic),
    IOApicInterruptSourceOverride(IOApicInterruptSourceOverride),
    IOApicNonmaskableInterruptSource(IOApicNonmaskableInterruptSource),
    LocalApicNonmaskableInterrupts(LocalApicNonmaskableInterrupts),
    LocalApicAddressOverride(LocalApicAddressOverride),
    ProcessorLocalX2Apic(ProcessorLocalX2Apic),
}

impl MadtEntryType {
    /// The type that a type byte stands for.
    pub open spec fn of_byte(byte: u8) -> Option<MadtEntryType> {
        if byte == 0 {
            Some(MadtEntryType::ProcessorLocalApic)
        } else if byte == 1 {
            Some(MadtEntryType::IOApic)
        } else if byte == 2 {
            Some(MadtEntryType::IOApicInterruptSourceOverride)
        } else if byte == 3 {
            Some(MadtEntryType::IOApicNonmaskableInterruptSource)
        } else if byte == 4 {
            Some(MadtEntryType::LocalApicNonmaskableInterrupts)
        } else if byte == 5 {
            Some(MadtEntryType::LocalApicAddressOverride)
        } else if byte == 9 {
            Some(MadtEntryType::ProcessorLocalX2Apic)
        } else {
            None
        }
    }

    /// The number of bytes of a record of this type after its type and
    /// length bytes.
    pub open spec fn spec_entry_size(&self) -> usize {
        match self {
            MadtEntryType::ProcessorLocalApic => 6,
            MadtEntryType::IOApic => 10,
            MadtEntryType::IOApicInterruptSourceOverride => 8,
            MadtEntryType::IOApicNonmaskableInterruptSource => 8,
            MadtEntryType::LocalApicNonmaskableInterrupts => 4,
            MadtEntryType::LocalApicAddressOverride => 10,
            MadtEntryType::ProcessorLocalX2Apic => 14,
        }
    }

    /// The type that a type byte stands for, or `None` for a byte that
    /// stands for no type.
    pub fn from_byte(byte: u8) -> (entry_type: Option<MadtEntryType>)
        ensures
            entry_type == Self::of_byte(byte),
    {
        match byte {
            0 => Some(MadtEntryType::ProcessorLocalApic),
            1 => Some(MadtEntryType::IOApic),
            2 => Some(MadtEntryType::IOApicInterruptSourceOverride),
            3 => Some(MadtEntryType::IOApicNonmaskableInterruptSource),
            4 => Some(MadtEntryType::LocalApicNonmaskableInterrupts),
            5 => Some(MadtEntryType::LocalApicAddressOverride),
            9 => Some(MadtEntryType::ProcessorLocalX2Apic),
            _ => None,
        }
    }

    /// The number of bytes of a record of this type after its type and
    /// length bytes.
    #[verifier::when_used_as_spec(spec_entry_size)]
    pub fn entry_size(&self) -> (size: usize)
        ensures
            size == self.spec_entry_size(),
    {
        match self {
            MadtEntryType::ProcessorLocalApic => 6,
            MadtEntryType::IOApic => 10,
            MadtEntryType::IOApicInterruptSourceOverride => 8,
            MadtEntryType::IOApicNonmaskableInterruptSource => 8,
            MadtEntryType::LocalApicNonmaskableInterrupts => 4,
            MadtEntryType::LocalApicAddressOverride => 10,
            MadtEntryType::ProcessorLocalX2Apic => 14,
        }
    }
}

/// The record of type `entry_type` whose fields start at offset `at` of
/// `bytes`.
pub open spec fn entry_fields(bytes: Seq<u8>, entry_type: MadtEntryType, at: int) -> MadtEntry {
    match entry_type {
        MadtEntryType::ProcessorLocalApic => MadtEntry::ProcessorLocalApic(
            ProcessorLocalApic {
                acpi_processor_id: bytes[at],
                apic_id: bytes[at + 1],
                flags: ProcessorLocalApicFlags { bits: u32_at(bytes, at + 2) },
            },
        ),
        MadtEntryType::IOApic => MadtEntry::IOApic(
            IOApic {
                apic_id: bytes[at],
                reserved: bytes[at + 1],
                address: u32_at(bytes, at + 2),
                global_system_interrupt_base: u32_at(bytes, at + 6),
            },
        ),
        MadtEntryType::IOApicInterruptSourceOverride => MadtEntry::IOApicInterruptSourceOverride(
            IOApicInterruptSourceOverride {
                bus_source: bytes[at],
                irq_source: bytes[at + 1],
                global_system_interrupt: u32_at(bytes, at + 2),
                flags: IOApicInterruptSourceFlags { bits: u16_at(bytes, at + 6) },
            },
        ),
        MadtEntryType::IOApicNonmaskableInterruptSource => MadtEntry::IOApicNonmaskableInterruptSource(
            IOApicNonmaskableInterruptSource {
                non_maskable_interrupt_source: bytes[at],
                reserved: bytes[at + 1],
                flags: IOApicInterruptSourceFlags { bits: u16_at(bytes, at + 2) },
                global_system_interrupt: u32_at(bytes, at + 4),
            },
        ),
        MadtEntryType::LocalApicNonmaskableInterrupts => MadtEntry::LocalApicNonmaskableInterrupts(
            LocalApicNonmaskableInterrupts {
                acpi_processor_id: bytes[at],
                flags: IOApicInterruptSourceFlags { bits: u16_at(bytes, at + 1) },
                lint_number: bytes[at + 3],
            },
        ),
        MadtEntryType::LocalApicAddressOverride => MadtEntry::LocalApicAddressOverride(
            LocalApicAddressOverride {
                reserved: u16_at(bytes, at),
                physical_address: u64_at(bytes, at + 2),
            },
        ),
        MadtEntryType::ProcessorLocalX2Apic => MadtEntry::ProcessorLocalX2Apic(
            ProcessorLocalX2Apic {
                reserved: u16_at(bytes, at),
                processor_local_x2apic_id: u32_at(bytes, at + 2),
                flags: LocalApicFlags { bits: u32_at(bytes, at + 6) },
                acpi_id: u32_at(bytes, at + 10),
            },
        ),
    }
}

/// The record that starts at offset `at` of `bytes`, if there is a whole
/// record of a known type there: the type byte stands for a type, the
/// length byte covers at least the two leading bytes, and the fields of
/// the type lie inside `bytes`.
pub open spec fn entry_at(bytes: Seq<u8>, at: int) -> Option<MadtEntry> {
    if 0 <= at && at + 2 <= bytes.len() && bytes[at + 1] >= 2 {
        match MadtEntryType::of_byte(bytes[at]) {
            Some(entry_type) => if at + 2 + entry_type.spec_entry_size() <= bytes.len() {
                Some(entry_fields(bytes, entry_type, at + 2))
            } else {
                None
            },
            None => None,
        }
    } else {
        None
    }
}

/// The offset of the record after the one at offset `at`: as far on as the
/// length byte says, and no further than the end of `bytes`.
pub open spec fn offset_after(bytes: Seq<u8>, at: int) -> int {
    if at + bytes[at + 1] <= bytes.len() {
        at + bytes[at + 1]
    } else {
        bytes.len() as int
    }
}

/// The enumeration of the records of a table.
#[derive(Debug)]
pub struct MadtEntryIterator<'a> {
    bytes: &'a [u8],
    current: usize,
}

impl<'a> MadtEntryIterator<'a> {
    /// The bytes of the table.
    pub closed spec fn bytes(&self) -> Seq<u8> {
        self.bytes@
    }

    /// The offset of the record that comes next.
    pub closed spec fn position(&self) -> int {
        self.current as int
    }

    /// The record at the iterator's position, or `None` if there is no
    /// whole record of a known type there. After a record the iterator
    /// stands at the record that follows it; after `None` it stands at the
    /// end of the table.
    pub fn next(&mut self) -> (item: Option<MadtEntry>)
        ensures
            final(self).bytes() == old(self).bytes(),
            item == entry_at(old(self).bytes(), old(self).position()),
            final(self).position() == if item is Some {
                offset_after(old(self).bytes(), old(self).position())
            } else {
                old(self).bytes().len() as int
            },
    {
        let bytes = self.bytes;
        let at = self.current;
        if at >= bytes.len() || bytes.len() - at < 2 || bytes[at + 1] < 2 {
            self.current = bytes.len();
            return None;
        }
        let record_length = bytes[at + 1] as usize;
        let entry_type = match MadtEntryType::from_byte(bytes[at]) {
            Some(entry_type) => entry_type,
            None => {
                self.current = bytes.len();
                return None;
            },
        };
        if bytes.len() - at - 2 < entry_type.entry_size() {
            self.current = bytes.len();
            return None;
        }
        let start = at + 2;
        let entry = match entry_type {
            MadtEntryType::ProcessorLocalApic => MadtEntry::ProcessorLocalApic(
                ProcessorLocalApic {
                    acpi_processor_id: bytes[start],
                    apic_id: bytes[start + 1],
                    flags: ProcessorLocalApicFlags { bits: read_u32(bytes, start + 2) },
                },
            ),
            MadtEntryType::IOApic => MadtEntry::IOApic(
                IOApic {
                    apic_id: bytes[start],
                    reserved: bytes[start + 1],
                    address: read_u32(bytes, start + 2),
                    global_system_interrupt_base: read_u32(bytes, start + 6),
                },
            ),
            MadtEntryType::IOApicInterruptSourceOverride => MadtEntry::IOApicInterruptSourceOverride(
                IOApicInterruptSourceOverride {
                    bus_source: bytes[start],
                    irq_source: bytes[start + 1],
                    global_system_interrupt: read_u32(bytes, start + 2),
                    flags: IOApicInterruptSourceFlags { bits: read_u16(bytes, start + 6) },
                },
            ),
            MadtEntryType::IOApicNonmaskableInterruptSource => MadtEntry::IOApicNonmaskableInterruptSource(
                IOApicNonmaskableInterruptSource {
                    non_maskable_interrupt_source: bytes[start],
                    reserved: bytes[start + 1],
                    flags: IOApicInterruptSourceFlags { bits: read_u16(bytes, start + 2) },
                    global_system_interrupt: read_u32(bytes, start + 4),
                },
            ),
            MadtEntryType::LocalApicNonmaskableInterrupts => MadtEntry::LocalApicNonmaskableInterrupts(
                LocalApicNonmaskableInterrupts {
                    acpi_processor_id: bytes[start],
                    flags: IOApicInterruptSourceFlags { bits: read_u16(bytes, start + 1) },
                    lint_number: bytes[start + 3],
                },
            ),
            MadtEntryType::LocalApicAddressOverride => MadtEntry::LocalApicAddressOverride(
                LocalApicAddressOverride {
                    reserved: read_u16(bytes, start),
                    physical_address: read_u64(bytes, start + 2),
                },
            ),
            MadtEntryType::ProcessorLocalX2Apic => MadtEntry::ProcessorLocalX2Apic(
                ProcessorLocalX2Apic {
                    reserved: read_u16(bytes, start),
                    processor_local_x2apic_id: read_u32(bytes, start + 2),
                    flags: LocalApicFlags { bits: read_u32(bytes, start + 6) },
                    acpi_id: read_u32(bytes, start + 10),
                },
            ),
        };
        if record_length <= bytes.len() - at {
            self.current = at + record_length;
        } else {
            self.current = bytes.len();
        }
        Some(entry)
    }
}

impl MADT {
    /// The part of the table before its records that the first 44 bytes of
    /// the table hold.
    pub fn from_bytes(table: &[u8]) -> (madt: Self)
        requires
            table@.len() >= MADT_ENTRIES_OFFSET,
        ensures
            madt.header.signature@ == table@.subrange(0, 4),
            madt.header.length == u32_at(table@, 4),
            madt.local_apic_address == u32_at(table@, 36),
            madt.local_apic_flags.bits == u32_at(table@, 40),
    {
        MADT {
            header: SDTHeader::from_bytes(table),
            local_apic_address: read_u32(table, 36),
            local_apic_flags: LocalApicFlags { bits: read_u32(table, 40) },
        }
    }

    /// The enumeration of the records of the table, whose bytes are
    /// `table`. It starts at the first record.
    pub fn entries<'a>(&self, table: &'a [u8]) -> (iterator: MadtEntryIterator<'a>)
        ensures
            iterator.bytes() == table@,
            iterator.position() == MADT_ENTRIES_OFFSET,
    {
        MadtEntryIterator { bytes: table, current: MADT_ENTRIES_OFFSET }
    }

    /// Whether the table, whose bytes are `table`, is valid: its signature
    /// is `APIC` and its bytes add up to zero modulo 256.
    pub fn checksum(&self, table: &[u8]) -> (valid: bool)
        ensures
            valid == (self.header.has_signature(0x41, 0x50, 0x49, 0x43) && sums_to_zero(table@)),
    {
        if !self.header.signature_is(0x41, 0x50, 0x49, 0x43) {
            return false;
        }
        validate_checksum(table)
    }
}

} // verus!
