//! The interrupt descriptor table: gate descriptors and the register value
//! that locates the table.

use crate::x64::gdt::SegmentSelector;
use crate::bytes::{
    le_bytes_u16, le_bytes_u32, lemma_bytes_round_trip, push_u16, push_u32, u16_at, u32_at,
};
use vstd::prelude::*;

verus! {

/// The value of the register that locates the interrupt descriptor table.
#[derive(Clone, Copy, Debug)]
pub struct Idtr {
    /// The size of the table in bytes, less one.
    pub size: u16,
    /// The address of the first gate descriptor.
    pub base: u64,
}

impl Idtr {
    /// The register value for the table of `gate_descriptor` that lies at
    /// address `base`. A gate descriptor takes 16 bytes; the table must
    /// have at least one descriptor and at most 4095, so that its size fits
    /// the register.
    pub fn from_gate_descriptors(gate_descriptor: &[GateDescriptor], base: u64) -> (idtr: Self)
        requires
            1 <= gate_descriptor@.len() <= 4095,
        ensures
            idtr.size == 16 * gate_descriptor@.len() - 1,
            idtr.base == base,
    {
        Self { size: (16 * gate_descriptor.len()) as u16 - 1, base }
    }
}

/// The kind of a gate: an interrupt gate masks interrupts on entry, a trap
/// gate does not.
#[derive(Clone, Copy, Debug, PartialEq, Eq, Structural)]
pub enum GateType {
    InterruptGate,
    TrapGate,
}

/// A gate descriptor: an entry of the interrupt descriptor table.
#[derive(Clone, Copy, Debug)]
pub struct GateDescriptor {
    offset1: u16,
    pub segment_selector: SegmentSelector,
    ist: u8,
    flags: u8,
    offset2: u16,
    offset3: u32,
    reserved: u32,
}

/// How the offset is spread over three fields, and how the flags byte
/// holds the type, the privilege level and the present bit.
proof fn lemma_gate_fields(offset: u64, flags: u8, value: u8)
    by (bit_vector)
    ensures
        ((offset as u16) as u64) | ((((offset >> 16) as u16) as u64) << 16) | ((((offset >> 32) as u32)
            as u64) << 32) == offset,
        (0u16 as u64) | ((0u16 as u64) << 16) | ((0u32 as u64) << 32) == 0,
        value & 0b111 <= 7,
        value == value & 0b111 <==> value <= 7,
        value == value & 0b11 <==> value <= 3,
        (flags >> 5) & 0b11 <= 3,
        (flags | 0xE) & 0b1110 == 0xE,
        (flags | 0xF) & 0b1111 == 0xF,
        flags & 0b1111 == 0 ==> (flags | 0xE) & 0b1111 == 0xE,
        (flags | 0xE) & 0xF0 == flags & 0xF0,
        (flags | 0xF) & 0xF0 == flags & 0xF0,
        value <= 3 ==> ((flags | ((value & 0b11) << 5)) >> 5) & 0b11 == ((flags >> 5) & 0b11)
            | value,
        value <= 3 ==> (flags | ((value & 0b11) << 5)) & 0b10011111 == flags & 0b10011111,
        (flags | 0b10000000) & 0b10000000 != 0,
        (flags & 0b01111111) & 0b10000000 == 0,
        (flags | 0b10000000) & 0b01111111 == flags & 0b01111111,
        (flags & 0b01111111) & 0b01111111 == flags & 0b01111111,
        (0u8 >> 5) & 0b11 == 0 && 0u8 & 0b111 == 0 && 0u8 & 0b10000000 == 0 && 0u8 & 0b1111 == 0,
        ((0u8 | 0xF) | 0b10000000) & 0b1111 == 0xF && (((0u8 | 0xF) | 0b10000000) >> 5) & 0b11 == 0
            && ((0u8 | 0xF) | 0b10000000) & 0b10000000 != 0,
{
}

impl GateDescriptor {
    /// The address of the interrupt service routine.
    pub closed spec fn spec_offset(&self) -> u64 {
        (self.offset1 as u64) | ((self.offset2 as u64) << 16) | ((self.offset3 as u64) << 32)
    }

    /// The index into the interrupt stack table: the low three bits of its
    /// byte. Zero means that the table is not used.
    pub closed spec fn spec_ist(&self) -> u8 {
        self.ist & 0b111
    }

    /// The low four bits of the flags byte, which encode the type:
    /// `0xE` for an interrupt gate, `0xF` for a trap gate.
    pub closed spec fn spec_type_bits(&self) -> u8 {
        self.flags & 0b1111
    }

    /// The lowest privilege level that may use the descriptor: bits 5 and 6 of
    /// the flags byte.
    pub closed spec fn spec_dpl(&self) -> u8 {
        (self.flags >> 5) & 0b11
    }

    /// Whether the descriptor is present: bit 7 of the flags byte.
    pub closed spec fn spec_present(&self) -> bool {
        self.flags & 0b10000000 != 0
    }

    /// The selector of the code segment of the routine.
    pub closed spec fn spec_segment_selector(&self) -> SegmentSelector {
        self.segment_selector
    }

    /// The address of the interrupt service routine.
    #[verifier::when_used_as_spec(spec_offset)]
    pub fn get_offset(&self) -> (offset: u64)
        ensures
            offset == self.spec_offset(),
    {
        (self.offset1 as u64) | ((self.offset2 as u64) << 16) | ((self.offset3 as u64) << 32)
    }

    /// The index into the interrupt stack table.
    #[verifier::when_used_as_spec(spec_ist)]
    pub fn get_ist(&self) -> (ist: u8)
        ensures
            ist == self.spec_ist(),
            ist <= 7,
    {
        proof {
            lemma_gate_fields(0, 0, self.ist);
        }
        self.ist & 0b111
    }

    /// The type of the descriptor, which must have been set.
    pub fn get_gate_type(&self) -> (gate_type: GateType)
        requires
            self.spec_type_bits() == 0xE || self.spec_type_bits() == 0xF,
        ensures
            gate_type == if self.spec_type_bits() == 0xE {
                GateType::InterruptGate
            } else {
                GateType::TrapGate
            },
    {
        if self.flags & 0b1111 == 0xE {
            GateType::InterruptGate
        } else {
            GateType::TrapGate
        }
    }

    /// The lowest privilege level that may use the descriptor.
    #[verifier::when_used_as_spec(spec_dpl)]
    pub fn get_dpl(&self) -> (dpl: u8)
        ensures
            dpl == self.spec_dpl(),
            dpl <= 3,
    {
        proof {
            lemma_gate_fields(0, self.flags, 0);
        }
        (self.flags >> 5) & 0b11
    }

    /// Whether the descriptor is present.
    #[verifier::when_used_as_spec(spec_present)]
    pub fn present(&self) -> (present: bool)
        ensures
            present == self.spec_present(),
    {
        self.flags & 0b10000000 != 0
    }

    /// Sets the address of the interrupt service routine. Every other field
    /// keeps its value.
    pub fn set_offset(&mut self, offset: u64)
        ensures
            final(self).spec_offset() == offset,
            final(self).spec_ist() == old(self).spec_ist(),
            final(self).spec_type_bits() == old(self).spec_type_bits(),
            final(self).spec_dpl() == old(self).spec_dpl(),
            final(self).spec_present() == old(self).spec_present(),
            final(self).spec_segment_selector() == old(self).spec_segment_selector(),
    {
        proof {
            lemma_gate_fields(offset, 0, 0);
        }
        self.offset1 = #[verifier::truncate]
        (offset as u16);
        self.offset2 = #[verifier::truncate]
        ((offset >> 16) as u16);
        self.offset3 = #[verifier::truncate]
        ((offset >> 32) as u32);
    }

    /// Sets the index into the interrupt stack table, which must be at most
    /// 7. Every other field keeps its value.
    pub fn set_ist(&mut self, ist: u8)
        requires
            ist <= 7,
        ensures
            final(self).spec_ist() == ist,
            final(self).spec_offset() == old(self).spec_offset(),
            final(self).spec_type_bits() == old(self).spec_type_bits(),
            final(self).spec_dpl() == old(self).spec_dpl(),
            final(self).spec_present() == old(self).spec_present(),
            final(self).spec_segment_selector() == old(self).spec_segment_selector(),
    {
        proof {
            lemma_gate_fields(0, 0, ist);
        }
        self.ist = ist & 0b111;
    }

    /// Sets the bits of the type on top of those that are set: after
    /// a trap gate was asked for the descriptor is a trap gate, and after an
    /// interrupt gate was asked for it is an interrupt gate unless it was a
    /// trap gate before. Every other field keeps its value.
    pub fn set_gate_type(&mut self, gate_type: GateType)
        ensures
            final(self).spec_type_bits() == match gate_type {
                GateType::InterruptGate => old(self).spec_type_bits() | 0xE,
                GateType::TrapGate => 0xF,
            },
            old(self).spec_type_bits() == 0 && gate_type == GateType::InterruptGate
                ==> final(self).spec_type_bits() == 0xE,
            final(self).spec_offset() == old(self).spec_offset(),
            final(self).spec_ist() == old(self).spec_ist(),
            final(self).spec_dpl() == old(self).spec_dpl(),
            final(self).spec_present() == old(self).spec_present(),
            final(self).spec_segment_selector() == old(self).spec_segment_selector(),
    {
        proof {
            lemma_gate_fields(0, self.flags, 0);
            lemma_gate_type(self.flags);
        }
        match gate_type {
            GateType::InterruptGate => self.flags |= 0xE,
            GateType::TrapGate => self.flags |= 0xF,
        }
    }

    /// Sets the bits of `dpl`, which must be at most 3, on top of those of
    /// the privilege level that are set. Every other field keeps its
    /// value.
    pub fn set_dpl(&mut self, dpl: u8)
        requires
            dpl <= 3,
        ensures
            final(self).spec_dpl() == old(self).spec_dpl() | dpl,
            old(self).spec_dpl() == 0 ==> final(self).spec_dpl() == dpl,
            final(self).spec_offset() == old(self).spec_offset(),
            final(self).spec_ist() == old(self).spec_ist(),
            final(self).spec_type_bits() == old(self).spec_type_bits(),
            final(self).spec_present() == old(self).spec_present(),
            final(self).spec_segment_selector() == old(self).spec_segment_selector(),
    {
        proof {
            lemma_gate_fields(0, self.flags, dpl);
            lemma_gate_dpl(self.flags, dpl);
        }
        self.flags |= (dpl & 0b11) << 5;
    }

    /// Marks the descriptor as present or absent. Every other field keeps its
    /// value.
    pub fn set_present(&mut self, present: bool)
        ensures
            final(self).spec_present() == present,
            final(self).spec_offset() == old(self).spec_offset(),
            final(self).spec_ist() == old(self).spec_ist(),
            final(self).spec_type_bits() == old(self).spec_type_bits(),
            final(self).spec_dpl() == old(self).spec_dpl(),
            final(self).spec_segment_selector() == old(self).spec_segment_selector(),
    {
        proof {
            lemma_gate_fields(0, self.flags, 0);
            lemma_gate_present(self.flags);
        }
        if present {
            self.flags |= 0b10000000;
        } else {
            self.flags &= 0b01111111;
        }
    }

    /// The descriptor with every bit clear. It describes no valid
    /// gate.
    pub fn create_null_descriptor() -> (descriptor: Self)
        ensures
            is_null_descriptor(descriptor),
    {
        proof {
            lemma_gate_fields(0, 0, 0);
        }
        Self {
            offset1: 0,
            segment_selector: SegmentSelector { x: 0 },
            ist: 0,
            flags: 0,
            offset2: 0,
            offset3: 0,
            reserved: 0,
        }
    }

    /// The descriptor of an exception handler: a present trap gate of
    /// privilege level zero that enters the routine at `offset` in the code
    /// segment `cs` and does not use the interrupt stack table.
    pub fn create_exception_handler(offset: u64, cs: SegmentSelector) -> (descriptor: Self)
        ensures
            descriptor.spec_offset() == offset,
            descriptor.spec_segment_selector() == cs,
            descriptor.spec_type_bits() == 0xF,
            descriptor.spec_present(),
            descriptor.spec_ist() == 0,
            descriptor.spec_dpl() == 0,
    {
        let mut exception_handler = Self::create_null_descriptor();
        exception_handler.set_offset(offset);
        exception_handler.segment_selector = cs;
        exception_handler.set_gate_type(GateType::TrapGate);
        exception_handler.set_present(true);
        exception_handler
    }
}

impl GateDescriptor {
    /// The sixteen bytes of the descriptor as the processor reads them:
    /// the low 16 bits of the offset, the segment selector, the byte of the
    /// interrupt stack table, the flags byte, bits 16 to 31 of the offset,
    /// bits 32 to 63 of the offset, and four reserved bytes.
    pub closed spec fn bytes(&self) -> Seq<u8> {
        le_bytes_u16(self.offset1) + le_bytes_u16(self.segment_selector.x) + seq![
            self.ist,
            self.flags,
        ] + le_bytes_u16(self.offset2) + le_bytes_u32(self.offset3)
            + le_bytes_u32(self.reserved)
    }

    /// Where the fields of the descriptor lie in its bytes.
    pub proof fn lemma_layout(&self)
        ensures
            self.bytes().len() == 16,
            u16_at(self.bytes(), 0) == self.spec_offset() % 0x1_0000,
            u16_at(self.bytes(), 2) == self.spec_segment_selector().x,
            self.bytes()[4] % 8 == self.spec_ist(),
            self.bytes()[5] % 16 == self.spec_type_bits(),
            self.bytes()[5] / 32 % 4 == self.spec_dpl(),
            self.bytes()[5] >= 128 <==> self.spec_present(),
            u16_at(self.bytes(), 6) == self.spec_offset() / 0x1_0000 % 0x1_0000,
            u32_at(self.bytes(), 8) == self.spec_offset() / 0x1_0000_0000,
    {
        lemma_bytes_round_trip(self.offset1, self.offset3, 0);
        lemma_bytes_round_trip(self.segment_selector.x, 0, 0);
        lemma_bytes_round_trip(self.offset2, 0, 0);
        lemma_offset_layout(self.offset1, self.offset2, self.offset3);
        lemma_flags_layout(self.ist, self.flags);
        let bytes = self.bytes();
        assert(bytes.subrange(0, 2) =~= le_bytes_u16(self.offset1));
        assert(bytes.subrange(2, 4) =~= le_bytes_u16(self.segment_selector.x));
        assert(bytes.subrange(6, 8) =~= le_bytes_u16(self.offset2));
        assert(bytes.subrange(8, 12) =~= le_bytes_u32(self.offset3));
        crate::bytes::lemma_read_is_local(bytes, 0);
        crate::bytes::lemma_read_is_local(bytes, 2);
        crate::bytes::lemma_read_is_local(bytes, 6);
        crate::bytes::lemma_read_is_local(bytes, 8);
    }

    /// The bytes of the descriptor as the processor reads them.
    pub fn to_bytes(&self) -> (bytes: Vec<u8>)
        ensures
            bytes@ == self.bytes(),
            bytes@.len() == 16,
    {
        let mut bytes: Vec<u8> = Vec::new();
        push_u16(&mut bytes, self.offset1);
        push_u16(&mut bytes, self.segment_selector.x);
        bytes.push(self.ist);
        bytes.push(self.flags);
        assert(bytes@ =~= le_bytes_u16(self.offset1) + le_bytes_u16(
            self.segment_selector.x,
        ) + seq![self.ist, self.flags]);
        push_u16(&mut bytes, self.offset2);
        assert(bytes@ =~= le_bytes_u16(self.offset1) + le_bytes_u16(
            self.segment_selector.x,
        ) + seq![self.ist, self.flags] + le_bytes_u16(self.offset2));
        push_u32(&mut bytes, self.offset3);
        assert(bytes@ =~= le_bytes_u16(self.offset1) + le_bytes_u16(
            self.segment_selector.x,
        ) + seq![self.ist, self.flags] + le_bytes_u16(self.offset2) + le_bytes_u32(
            self.offset3,
        ));
        push_u32(&mut bytes, self.reserved);
        assert(bytes@ =~= self.bytes());
        bytes
    }
}

/// How the offset is made of its three fields, in numbers.
proof fn lemma_offset_layout(offset1: u16, offset2: u16, offset3: u32)
    by (bit_vector)
    ensures
        ((offset1 as u64) | ((offset2 as u64) << 16) | ((offset3 as u64) << 32)) % 0x1_0000u64
            == offset1 as u64,
        ((offset1 as u64) | ((offset2 as u64) << 16) | ((offset3 as u64) << 32)) / 0x1_0000u64
            % 0x1_0000u64 == offset2 as u64,
        ((offset1 as u64) | ((offset2 as u64) << 16) | ((offset3 as u64) << 32))
            / 0x1_0000_0000u64 == offset3 as u64,
{
}

/// How the two bytes beside the offset hold their fields, in numbers.
proof fn lemma_flags_layout(ist: u8, flags: u8)
    by (bit_vector)
    ensures
        ist & 0b111 == ist % 8,
        flags & 0b1111 == flags % 16,
        (flags >> 5) & 0b11 == flags / 32 % 4,
        flags & 0b10000000 != 0 <==> flags >= 128,
{
}

/// Setting the bits of the type leaves the privilege level and the
/// present bit alone.
proof fn lemma_gate_type(flags: u8)
    by (bit_vector)
    ensures
        ((flags | 0xE) >> 5) & 0b11 == (flags >> 5) & 0b11,
        ((flags | 0xF) >> 5) & 0b11 == (flags >> 5) & 0b11,
        (flags | 0xE) & 0b10000000 == flags & 0b10000000,
        (flags | 0xF) & 0b10000000 == flags & 0b10000000,
        (flags | 0xE) & 0b1111 == (flags & 0b1111) | 0xE,
        (flags | 0xF) & 0b1111 == 0xF,
{
}

/// Setting the bits of the privilege level leaves the type and the
/// present bit alone.
proof fn lemma_gate_dpl(flags: u8, dpl: u8)
    by (bit_vector)
    requires
        dpl <= 3,
    ensures
        (flags | ((dpl & 0b11) << 5)) & 0b1111 == flags & 0b1111,
        (flags | ((dpl & 0b11) << 5)) & 0b10000000 == flags & 0b10000000,
        ((flags | ((dpl & 0b11) << 5)) >> 5) & 0b11 == ((flags >> 5) & 0b11) | dpl,
        (flags >> 5) & 0b11 == 0 ==> ((flags | ((dpl & 0b11) << 5)) >> 5) & 0b11 == dpl,
{
}

/// Setting or clearing the present bit leaves the type and the
/// privilege level alone.
proof fn lemma_gate_present(flags: u8)
    by (bit_vector)
    ensures
        (flags | 0b10000000) & 0b1111 == flags & 0b1111,
        (flags & 0b01111111) & 0b1111 == flags & 0b1111,
        ((flags | 0b10000000) >> 5) & 0b11 == (flags >> 5) & 0b11,
        ((flags & 0b01111111) >> 5) & 0b11 == (flags >> 5) & 0b11,
{
}

/// The interrupt descriptor table: one gate descriptor for each of the 256
/// vectors.
pub struct Idt {
    gate_descriptors: [GateDescriptor; 256],
}

impl View for Idt {
    type V = Seq<GateDescriptor>;

    closed spec fn view(&self) -> Seq<GateDescriptor> {
        self.gate_descriptors@
    }
}

impl Idt {
    /// A table of 256 null gate descriptors.
    pub fn new() -> (idt: Self)
        ensures
            idt@.len() == 256,
            forall|vector: int| 0 <= vector < 256 ==> is_null_descriptor(#[trigger] idt@[vector]),
    {
        let null = GateDescriptor::create_null_descriptor();
        Self { gate_descriptors: [null;256] }
    }

    /// The descriptor of the vector `interrupt_number`.
    pub fn gate_descriptor(&self, interrupt_number: u8) -> (gate_descriptor: GateDescriptor)
        ensures
            self@.len() == 256,
            gate_descriptor == self@[interrupt_number as int],
    {
        self.gate_descriptors[interrupt_number as usize]
    }

    /// Replaces the descriptor of the vector `interrupt_number`. The
    /// other vectors keep theirs.
    pub fn set_gate_descriptor(&mut self, interrupt_number: u8, gate_descriptor: GateDescriptor)
        ensures
            final(self)@ == old(self)@.update(interrupt_number as int, gate_descriptor),
    {
        self.gate_descriptors[interrupt_number as usize] = gate_descriptor;
    }

    /// Installs the routine at address `page_fault_handler` in code segment
    /// `cs` as the handler of page faults, vector 14. The other vectors
    /// keep their gates.
    pub fn set_page_fault_handler(&mut self, page_fault_handler: u64, cs: SegmentSelector)
        ensures
            final(self)@.len() == old(self)@.len(),
            is_exception_handler(final(self)@[0xE], page_fault_handler, cs),
            forall|vector: int|
                0 <= vector < 256 && vector != 0xE ==> final(self)@[vector] == old(self)@[vector],
    {
        self.gate_descriptors[0xE] = GateDescriptor::create_exception_handler(
            page_fault_handler,
            cs,
        );
    }

    /// Installs the routine at address `general_protection_fault_handler`
    /// in code segment `cs` as the handler of general protection faults,
    /// vector 13. The other vectors keep their gates.
    pub fn set_general_protection_fault_handler(
        &mut self,
        general_protection_fault_handler: u64,
        cs: SegmentSelector,
    )
        ensures
            final(self)@.len() == old(self)@.len(),
            is_exception_handler(final(self)@[0xD], general_protection_fault_handler, cs),
            forall|vector: int|
                0 <= vector < 256 && vector != 0xD ==> final(self)@[vector] == old(self)@[vector],
    {
        self.gate_descriptors[0xD] = GateDescriptor::create_exception_handler(
            general_protection_fault_handler,
            cs,
        );
    }

    /// Installs the routine at address `double_fault_handler` in code
    /// segment `cs` as the handler of double faults, vector 8. The other
    /// vectors keep their gates.
    pub fn set_double_fault_handler(&mut self, double_fault_handler: u64, cs: SegmentSelector)
        ensures
            final(self)@.len() == old(self)@.len(),
            is_exception_handler(final(self)@[0x8], double_fault_handler, cs),
            forall|vector: int|
                0 <= vector < 256 && vector != 0x8 ==> final(self)@[vector] == old(self)@[vector],
    {
        self.gate_descriptors[0x8] = GateDescriptor::create_exception_handler(
            double_fault_handler,
            cs,
        );
    }

    /// The register value that locates this table at address `base`.
    pub fn get_idtr(&self, base: u64) -> (idtr: Idtr)
        ensures
            idtr.size == 4095,
            idtr.base == base,
    {
        Idtr::from_gate_descriptors(&self.gate_descriptors, base)
    }
}

/// Whether every field of `gate` is zero.
pub open spec fn is_null_descriptor(gate: GateDescriptor) -> bool {
    &&& gate.spec_offset() == 0
    &&& gate.spec_ist() == 0
    &&& gate.spec_type_bits() == 0
    &&& gate.spec_dpl() == 0
    &&& !gate.spec_present()
    &&& gate.spec_segment_selector().x == 0
}

/// Whether `gate` is the descriptor of an exception handler at `offset` in code
/// segment `cs`: a present trap gate of privilege level zero that does not
/// use the interrupt stack table.
pub open spec fn is_exception_handler(gate: GateDescriptor, offset: u64, cs: SegmentSelector) -> bool {
    &&& gate.spec_offset() == offset
    &&& gate.spec_segment_selector() == cs
    &&& gate.spec_type_bits() == 0xF
    &&& gate.spec_present()
    &&& gate.spec_ist() == 0
    &&& gate.spec_dpl() == 0
}

} // verus!
