//! The global descriptor table: segment descriptors, the selectors that
//! name them, and the register value that locates the table.

use crate::bytes::{le_bytes_u16, lemma_bytes_round_trip, push_u16, read_u16, u16_at};
use vstd::prelude::*;

verus! {

/// The access byte of a segment descriptor, as a set of flags.
#[derive(Clone, Copy, Debug, PartialEq, Eq, Structural)]
pub struct AccessByte {
    pub bits: u8,
}

/// Set by the processor when the segment is accessed.
pub const ACCESSED: u8 = 0b1;

/// Read access for code segments, write access for data segments.
pub const READABLE_WRITABLE: u8 = 0b10;

/// A data segment that grows down, or a code segment that may be entered
/// from a lower privilege level.
pub const DIRECTION_CONFORMING: u8 = 0b100;

/// Set in code segments, clear in data segments.
pub const EXECUTABLE: u8 = 0b1000;

/// Clear in system segments, set in code and data segments.
pub const DESCRIPTOR_TYPE: u8 = 0b10000;

/// The lower bit of the descriptor privilege level.
pub const DPL_LOW: u8 = 0b100000;

/// The higher bit of the descriptor privilege level.
pub const DPL_HIGH: u8 = 0b1000000;

/// Set in every valid segment.
pub const PRESENT: u8 = 0b10000000;

impl AccessByte {
    /// The access byte with no flag set.
    pub fn empty() -> (access: Self)
        ensures
            access.bits == 0,
    {
        AccessByte { bits: 0 }
    }

    /// The access byte with exactly the given bits.
    pub fn from_bits_retain(bits: u8) -> (access: Self)
        ensures
            access.bits == bits,
    {
        AccessByte { bits }
    }

    /// The bits of the access byte.
    pub fn bits(&self) -> (bits: u8)
        ensures
            bits == self.bits,
    {
        self.bits
    }

    /// The access byte with the flags of both.
    pub fn union(self, other: Self) -> (access: Self)
        ensures
            access.bits == self.bits | other.bits,
    {
        AccessByte { bits: self.bits | other.bits }
    }

    /// Whether every flag of `other` is set.
    pub fn contains(&self, other: Self) -> (all: bool)
        ensures
            all == (self.bits & other.bits == other.bits),
    {
        self.bits & other.bits == other.bits
    }
}

/// The flags of a segment descriptor, held in the upper half of a byte.
#[derive(Clone, Copy, Debug, PartialEq, Eq, Structural)]
pub struct Flags {
    pub bits: u8,
}

/// Set in a 64-bit code segment.
pub const LONG_MODE_CODE: u8 = 0b100000;

/// Set in a 32-bit protected-mode segment.
pub const SIZE: u8 = 0b1000000;

/// Set if the limit counts pages, clear if it counts bytes.
pub const GRANULARITY: u8 = 0b10000000;

impl Flags {
    /// The flags with none set.
    pub fn empty() -> (flags: Self)
        ensures
            flags.bits == 0,
    {
        Flags { bits: 0 }
    }

    /// The flags with exactly the given bits.
    pub fn from_bits_retain(bits: u8) -> (flags: Self)
        ensures
            flags.bits == bits,
    {
        Flags { bits }
    }

    /// The bits of the flags.
    pub fn bits(&self) -> (bits: u8)
        ensures
            bits == self.bits,
    {
        self.bits
    }

    /// The flags of both.
    pub fn union(self, other: Self) -> (flags: Self)
        ensures
            flags.bits == self.bits | other.bits,
    {
        Flags { bits: self.bits | other.bits }
    }

    /// Whether every flag of `other` is set.
    pub fn contains(&self, other: Self) -> (all: bool)
        ensures
            all == (self.bits & other.bits == other.bits),
    {
        self.bits & other.bits == other.bits
    }
}

/// The value of the register that locates the global descriptor table.
#[derive(Clone, Copy, Debug)]
pub struct Gdtr {
    /// The size of the table in bytes, less one.
    pub size: u16,
    /// The address of the first descriptor.
    pub base: u64,
}

impl Gdtr {
    /// The number of descriptors in the table.
    pub open spec fn entries(&self) -> int {
        (self.size + 1) / 8
    }

    /// The descriptor at `index` of the table that this value locates, or
    /// `None` if the table has no such descriptor. `table` is the memory at
    /// `base`, read as descriptors.
    pub fn get_segment_descriptor<'a>(
        &self,
        table: &'a [SegmentDescriptor],
        index: usize,
    ) -> (descriptor: Option<&'a SegmentDescriptor>)
        requires
            table@.len() >= self.entries(),
        ensures
            descriptor is Some <==> index < self.entries(),
            descriptor matches Some(d) ==> *d == table@[index as int],
    {
        let table_entries: usize = (self.size as usize + 1) / 8;
        if index >= table_entries {
            None
        } else {
            Some(&table[index])
        }
    }

    /// The register value for the table of `segment_descriptors` that lies
    /// at address `base`. The table must have at least one descriptor and
    /// at most 8192, so that its size fits the register.
    pub fn from_segment_descriptors(segment_descriptors: &[SegmentDescriptor], base: u64) -> (gdtr:
        Gdtr)
        requires
            1 <= segment_descriptors@.len() <= 8192,
        ensures
            gdtr.size == segment_descriptors@.len() * 8 - 1,
            gdtr.base == base,
            gdtr.entries() == segment_descriptors@.len(),
    {
        let size: u16 = (segment_descriptors.len() * 8 - 1) as u16;
        Gdtr { size, base }
    }
}

/// A segment descriptor: an entry of the global descriptor table.
#[derive(Clone, Copy, Debug)]
pub struct SegmentDescriptor {
    limit: u16,
    base1: u16,
    base2: u8,
    pub access_byte: AccessByte,
    limit2_and_flags: u8,
    base3: u8,
}

/// How the limit, the base and the flags are spread over the fields of a
/// descriptor.
proof fn lemma_descriptor_fields(limit: u32, base: u32, mixed: u8, flags: u8)
    by (bit_vector)
    ensures
        limit & 0xFFF00000 == 0 ==> ((limit as u16) as u32) | (((((mixed & 0xF0) | (((limit >> 16)
            & 0xF) as u8)) & 0x0F) as u32) << 16) == limit,
        ((mixed & 0xF0) | (((limit >> 16) & 0xF) as u8)) & 0xF0 == mixed & 0xF0,
        ((base as u16) as u32) | ((((base >> 16) as u8) as u32) << 16) | ((((base >> 24) as u8) as u32)
            << 24) == base,
        ((mixed & 0x0F) | flags) & 0x0F == (mixed | flags) & 0x0F,
        flags & 0x0F == 0 ==> ((mixed & 0x0F) | flags) & 0xF0 == flags && ((mixed & 0x0F) | flags)
            & 0x0F == mixed & 0x0F,
        limit & 0xFFF00000 == 0 <==> limit < 0x100000,
        0u8 & 0x0F == 0 && 0u8 & 0xF0 == 0 && 0b100000u8 & 0x0F == 0,
        (0u16 as u32) | (((0u8 & 0x0F) as u32) << 16) == 0,
        (0u16 as u32) | ((0u8 as u32) << 16) | ((0u8 as u32) << 24) == 0,
        0b10u8 | 0b1000u8 | 0b10000u8 | 0b10000000u8 == 0b10011010u8,
        0b10u8 | 0b10000u8 | 0b10000000u8 == 0b10010010u8,
{
}

impl SegmentDescriptor {
    /// The 20-bit limit of the segment.
    pub closed spec fn spec_limit(&self) -> u32 {
        (self.limit as u32) | (((self.limit2_and_flags & 0x0F) as u32) << 16)
    }

    /// The 32-bit base address of the segment.
    pub closed spec fn spec_base(&self) -> u32 {
        (self.base1 as u32) | ((self.base2 as u32) << 16) | ((self.base3 as u32) << 24)
    }

    /// The bits of the flags: the upper half of the byte that the flags
    /// share with the limit.
    pub closed spec fn spec_flags(&self) -> u8 {
        self.limit2_and_flags & 0xF0
    }

    /// The access byte.
    pub closed spec fn spec_access_byte(&self) -> AccessByte {
        self.access_byte
    }

    /// The limit of the segment.
    #[verifier::when_used_as_spec(spec_limit)]
    pub fn get_limit(&self) -> (limit: u32)
        ensures
            limit == self.spec_limit(),
    {
        let mut limit: u32 = self.limit as u32;
        limit |= ((self.limit2_and_flags & 0b00001111) as u32) << 16;
        limit
    }

    /// Sets the limit, which must fit into 20 bits. The base, the flags and
    /// the access byte keep their values.
    pub fn set_limit(&mut self, limit: u32)
        requires
            limit < 0x100000,
        ensures
            final(self).spec_limit() == limit,
            final(self).spec_base() == old(self).spec_base(),
            final(self).spec_flags() == old(self).spec_flags(),
            final(self).spec_access_byte() == old(self).spec_access_byte(),
    {
        proof {
            lemma_descriptor_fields(limit, 0, self.limit2_and_flags, 0);
        }
        self.limit = #[verifier::truncate]
        (limit as u16);
        self.limit2_and_flags &= 0b11110000;
        self.limit2_and_flags |= #[verifier::truncate]
        (((limit >> 16) & 0b1111) as u8);
    }

    /// The base address of the segment.
    #[verifier::when_used_as_spec(spec_base)]
    pub fn get_base(&self) -> (base: u32)
        ensures
            base == self.spec_base(),
    {
        let mut base = self.base1 as u32;
        base |= (self.base2 as u32) << 16;
        base |= (self.base3 as u32) << 24;
        base
    }

    /// Sets the base address. The limit, the flags and the access byte keep
    /// their values.
    pub fn set_base(&mut self, base: u32)
        ensures
            final(self).spec_base() == base,
            final(self).spec_limit() == old(self).spec_limit(),
            final(self).spec_flags() == old(self).spec_flags(),
            final(self).spec_access_byte() == old(self).spec_access_byte(),
    {
        proof {
            lemma_descriptor_fields(0, base, 0, 0);
        }
        self.base1 = #[verifier::truncate]
        (base as u16);
        self.base2 = #[verifier::truncate]
        ((base >> 16) as u8);
        self.base3 = #[verifier::truncate]
        ((base >> 24) as u8);
    }

    /// The flags of the segment.
    pub fn get_flags(&self) -> (flags: Flags)
        ensures
            flags.bits == self.spec_flags(),
    {
        let flags = self.limit2_and_flags & 0b11110000;
        Flags::from_bits_retain(flags)
    }

    /// Replaces the flags by `flags`, whose bits must lie in the upper half
    /// of the byte. The limit, the base and the access byte keep their
    /// values.
    pub fn set_flags(&mut self, flags: Flags)
        requires
            flags.bits & 0x0F == 0,
        ensures
            final(self).spec_flags() == flags.bits,
            final(self).spec_limit() == old(self).spec_limit(),
            final(self).spec_base() == old(self).spec_base(),
            final(self).spec_access_byte() == old(self).spec_access_byte(),
    {
        proof {
            lemma_descriptor_fields(0, 0, self.limit2_and_flags, flags.bits);
        }
        self.limit2_and_flags &= 0b00001111;
        self.limit2_and_flags |= flags.bits();
    }

    /// The descriptor with every bit clear. It describes no valid segment.
    pub fn new_null_descriptor() -> (descriptor: Self)
        ensures
            descriptor.spec_limit() == 0,
            descriptor.spec_base() == 0,
            descriptor.spec_flags() == 0,
            descriptor.spec_access_byte().bits == 0,
    {
        proof {
            lemma_descriptor_fields(0, 0, 0, 0);
        }
        SegmentDescriptor {
            limit: 0,
            base1: 0,
            base2: 0,
            access_byte: AccessByte::empty(),
            limit2_and_flags: 0,
            base3: 0,
        }
    }

    /// The descriptor of the kernel's code segment: a present, readable,
    /// executable 64-bit code segment of privilege level zero. Limit and
    /// base are zero, as long mode ignores them.
    pub fn new_kernel_code_descriptor() -> (descriptor: Self)
        ensures
            descriptor.spec_limit() == 0,
            descriptor.spec_base() == 0,
            descriptor.spec_flags() == LONG_MODE_CODE,
            descriptor.spec_access_byte().bits == 0b10011010,
    {
        let mut descriptor = Self::new_null_descriptor();
        proof {
            lemma_descriptor_fields(0, 0, 0, 0);
        }
        descriptor.access_byte = AccessByte::from_bits_retain(READABLE_WRITABLE).union(
            AccessByte::from_bits_retain(EXECUTABLE),
        ).union(AccessByte::from_bits_retain(DESCRIPTOR_TYPE)).union(
            AccessByte::from_bits_retain(PRESENT),
        );
        descriptor.set_flags(Flags::from_bits_retain(LONG_MODE_CODE));
        descriptor
    }

    /// The descriptor of the kernel's data segment: a present, writable
    /// data segment of privilege level zero, with no flag set.
    pub fn new_kernel_data_descriptor() -> (descriptor: Self)
        ensures
            descriptor.spec_limit() == 0,
            descriptor.spec_base() == 0,
            descriptor.spec_flags() == 0,
            descriptor.spec_access_byte().bits == 0b10010010,
    {
        let mut descriptor = Self::new_null_descriptor();
        proof {
            lemma_descriptor_fields(0, 0, 0, 0);
        }
        descriptor.access_byte = AccessByte::from_bits_retain(READABLE_WRITABLE).union(
            AccessByte::from_bits_retain(DESCRIPTOR_TYPE),
        ).union(AccessByte::from_bits_retain(PRESENT));
        descriptor
    }
}

impl SegmentDescriptor {
    /// The eight bytes of the descriptor as the processor reads them: the
    /// low 16 bits of the limit, the low 16 bits of the base, bits 16 to 23
    /// of the base, the access byte, the byte that the rest of the limit
    /// shares with the flags, and bits 24 to 31 of the base.
    pub closed spec fn bytes(&self) -> Seq<u8> {
        le_bytes_u16(self.limit) + le_bytes_u16(self.base1) + seq![
            self.base2,
            self.access_byte.bits,
            self.limit2_and_flags,
            self.base3,
        ]
    }

    /// Where the fields of the descriptor lie in its bytes.
    pub proof fn lemma_layout(&self)
        ensures
            self.bytes().len() == 8,
            u16_at(self.bytes(), 0) == self.spec_limit() % 0x1_0000,
            self.bytes()[6] % 16 == self.spec_limit() / 0x1_0000,
            self.bytes()[6] - self.bytes()[6] % 16 == self.spec_flags(),
            u16_at(self.bytes(), 2) == self.spec_base() % 0x1_0000,
            self.bytes()[4] == self.spec_base() / 0x1_0000 % 0x100,
            self.bytes()[7] == self.spec_base() / 0x100_0000,
            self.bytes()[5] == self.spec_access_byte().bits,
    {
        lemma_bytes_round_trip(self.limit, 0, 0);
        lemma_bytes_round_trip(self.base1, 0, 0);
        lemma_descriptor_layout(
            self.limit,
            self.limit2_and_flags,
            self.base1,
            self.base2,
            self.base3,
        );
        lemma_shared_byte(self.limit2_and_flags);
    }

    /// The bytes of the descriptor as the processor reads them.
    pub fn to_bytes(&self) -> (bytes: Vec<u8>)
        ensures
            bytes@ == self.bytes(),
            bytes@.len() == 8,
    {
        let mut bytes: Vec<u8> = Vec::new();
        push_u16(&mut bytes, self.limit);
        push_u16(&mut bytes, self.base1);
        bytes.push(self.base2);
        bytes.push(self.access_byte.bits());
        bytes.push(self.limit2_and_flags);
        bytes.push(self.base3);
        assert(bytes@ =~= self.bytes());
        bytes
    }

    /// The descriptor that the processor reads from the eight bytes.
    pub fn from_bytes(bytes: &[u8]) -> (descriptor: Self)
        requires
            bytes@.len() == 8,
        ensures
            descriptor.bytes() == bytes@,
    {
        let descriptor = SegmentDescriptor {
            limit: read_u16(bytes, 0),
            base1: read_u16(bytes, 2),
            base2: bytes[4],
            access_byte: AccessByte::from_bits_retain(bytes[5]),
            limit2_and_flags: bytes[6],
            base3: bytes[7],
        };
        assert(descriptor.bytes() =~= bytes@);
        descriptor
    }

    /// A descriptor is determined by its bytes: two descriptors with the
    /// same bytes have the same limit, base, flags and access byte.
    pub proof fn lemma_bytes_determine(&self, other: Self)
        requires
            self.bytes() == other.bytes(),
        ensures
            self.spec_limit() == other.spec_limit(),
            self.spec_base() == other.spec_base(),
            self.spec_flags() == other.spec_flags(),
            self.spec_access_byte() == other.spec_access_byte(),
    {
        let first = self.bytes();
        let second = other.bytes();
        lemma_bytes_round_trip(self.limit, 0, 0);
        lemma_bytes_round_trip(other.limit, 0, 0);
        lemma_bytes_round_trip(self.base1, 0, 0);
        lemma_bytes_round_trip(other.base1, 0, 0);
        assert(u16_at(first, 0) == self.limit && u16_at(second, 0) == other.limit);
        assert(u16_at(first, 2) == self.base1 && u16_at(second, 2) == other.base1);
        assert(first[4] == self.base2 && second[4] == other.base2);
        assert(first[5] == self.access_byte.bits && second[5] == other.access_byte.bits);
        assert(first[6] == self.limit2_and_flags && second[6] == other.limit2_and_flags);
        assert(first[7] == self.base3 && second[7] == other.base3);
    }
}

/// How the limit, the base and the flags are made of the fields of a
/// descriptor, in numbers.
proof fn lemma_descriptor_layout(limit: u16, mixed: u8, base1: u16, base2: u8, base3: u8)
    by (bit_vector)
    ensures
        ((limit as u32) | (((mixed & 0x0F) as u32) << 16)) % 0x1_0000u32 == limit as u32,
        ((limit as u32) | (((mixed & 0x0F) as u32) << 16)) / 0x1_0000u32 == (mixed & 0x0F) as u32,
        ((base1 as u32) | ((base2 as u32) << 16) | ((base3 as u32) << 24)) % 0x1_0000u32
            == base1 as u32,
        ((base1 as u32) | ((base2 as u32) << 16) | ((base3 as u32) << 24)) / 0x1_0000u32 % 0x100u32
            == base2 as u32,
        ((base1 as u32) | ((base2 as u32) << 16) | ((base3 as u32) << 24)) / 0x100_0000u32
            == base3 as u32,
{
}

/// The two halves of the byte that the limit shares with the flags, in
/// numbers.
proof fn lemma_shared_byte(mixed: u8)
    by (bit_vector)
    ensures
        mixed & 0x0F == mixed % 16,
        (mixed & 0xF0) == (mixed / 16) * 16,
{
}

/// A segment selector: the value of a segment register.
#[derive(Clone, Copy, Debug)]
pub struct SegmentSelector {
    pub x: u16,
}

/// How a selector is made of the index, the table bit and the privilege
/// level.
proof fn lemma_selector_fields(x: u16, index: u16, table: bool, level: u8)
    by (bit_vector)
    ensures
        x & 0xFFF8 == (x >> 3) * 8,
        x & 0b11 == x % 4,
        (x & 0b11) < 4,
        (x >> 3) == x / 8,
        x & 0b100 == 0 <==> (x / 4) % 2 == 0,
        index & 0xE000 == 0 <==> index < 0x2000,
        index < 0x2000 && level <= 3 ==> ({
            let low = 0u16 | ((level & 0b11) as u16);
            let middle = if table {
                low | 0b100
            } else {
                low
            };
            let selector = middle | (index << 3);
            &&& (selector >> 3) == index
            &&& (selector & 0b11) == level
            &&& (selector & 0b100 == 0) == !table
            &&& selector == index * 8 + (if table {
                4u16
            } else {
                0u16
            }) + level
        }),
{
}

impl SegmentSelector {
    /// The offset of the descriptor in its table, in bytes: the selector
    /// with its low three bits clear.
    pub open spec fn spec_offset(&self) -> u16 {
        ((self.x / 8) * 8) as u16
    }

    /// The index of the descriptor in its table.
    pub open spec fn spec_index(&self) -> usize {
        (self.x / 8) as usize
    }

    /// Whether the table-indicator bit, bit 2, is clear, which selects the
    /// global descriptor table.
    pub open spec fn spec_uses_gdt(&self) -> bool {
        (self.x / 4) % 2 == 0
    }

    /// The requested privilege level: the low two bits.
    pub open spec fn spec_privilege_level(&self) -> u8 {
        (self.x % 4) as u8
    }

    /// The offset of the descriptor in its table, in bytes.
    #[verifier::when_used_as_spec(spec_offset)]
    pub fn get_offset(&self) -> (offset: u16)
        ensures
            offset == self.spec_offset(),
    {
        proof {
            lemma_selector_fields(self.x, 0, false, 0);
        }
        self.x & 0xFFF8
    }

    /// The index of the descriptor in its table.
    #[verifier::when_used_as_spec(spec_index)]
    pub fn get_index(&self) -> (index: usize)
        ensures
            index == self.spec_index(),
    {
        proof {
            lemma_selector_fields(self.x, 0, false, 0);
        }
        (self.x >> 3) as usize
    }

    /// Whether the descriptor is taken from the global descriptor table
    /// and not from the local one.
    #[verifier::when_used_as_spec(spec_uses_gdt)]
    pub fn uses_gdt(&self) -> (global: bool)
        ensures
            global == self.spec_uses_gdt(),
    {
        proof {
            lemma_selector_fields(self.x, 0, false, 0);
        }
        self.x & 0b100 == 0
    }

    /// The requested privilege level.
    #[verifier::when_used_as_spec(spec_privilege_level)]
    pub fn privilege_level(&self) -> (level: u8)
        ensures
            level == self.spec_privilege_level(),
            level <= 3,
    {
        proof {
            lemma_selector_fields(self.x, 0, false, 0);
        }
        (self.x & 0b11) as u8
    }

    /// The selector with the given index and privilege level, whose
    /// table-indicator bit is set exactly if `uses_gdt` is given. The index
    /// must fit into 13 bits and the privilege level must be at most 3.
    pub fn new(index: u16, uses_gdt: bool, privilege_level: u8) -> (selector: Self)
        requires
            index < 0x2000,
            privilege_level <= 3,
        ensures
            selector.x == index * 8 + (if uses_gdt {
                4int
            } else {
                0int
            }) + privilege_level,
            selector.spec_index() == index,
            selector.spec_privilege_level() == privilege_level,
            selector.spec_uses_gdt() == !uses_gdt,
    {
        proof {
            lemma_selector_fields(0, index, uses_gdt, privilege_level);
        }
        let mut x: u16 = 0;
        x |= (privilege_level & 0b11) as u16;
        if uses_gdt {
            x |= 0b100;
        }
        x |= index << 3;
        proof {
            lemma_selector_fields(x, index, uses_gdt, privilege_level);
        }
        Self { x }
    }
}

} // verus!
