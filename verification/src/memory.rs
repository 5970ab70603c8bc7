//! Typed addresses.
//!
//! A [`PhysicalAddress`] names a byte on the memory bus, a [`VirtualAddress`]
//! is a canonical 48-bit address as the processor sees it, and a
//! [`DirectMappedAddress`] is a physical address seen through the window in
//! which the kernel maps all of physical memory at a fixed offset. The
//! window's start and the amount of physical memory are fixed once at boot
//! and carried around in a [`MemoryLayout`].

use crate::bits::{field_of, get_field, set_field, with_field};
use vstd::prelude::*;

verus! {

/// The size of a page frame in bytes.
pub const PAGE_SIZE: u64 = 4096;

/// The first address above the lower canonical half.
pub const LOWER_HALF_END: u64 = 0x0000_8000_0000_0000;

/// The first address of the higher canonical half.
pub const HIGHER_HALF_START: u64 = 0xFFFF_8000_0000_0000;

/// Whether bits 63 to 48 of `value` all repeat bit 47.
pub open spec fn is_canonical(value: u64) -> bool {
    field_of(value, 48, 16) == if field_of(value, 47, 1) == 1 {
        0xFFFFu64
    } else {
        0u64
    }
}

/// Addresses in the lower half and in the higher half are canonical, and
/// no others are.
pub proof fn lemma_canonical_halves(value: u64)
    by (bit_vector)
    ensures
        is_canonical(value) <==> (value < 0x0000_8000_0000_0000u64 || value
            >= 0xFFFF_8000_0000_0000u64),
        field_of(value, 47, 1) == 1 <==> field_of(value, 39, 9) >= 256,
        field_of(value, 47, 1) <= 1,
{
}

/// The boot-time memory configuration: where the direct map starts and how
/// much physical memory there is.
#[derive(Clone, Copy, Debug)]
pub struct MemoryLayout {
    /// Virtual address at which physical address zero is mapped.
    pub direct_map_start: u64,
    /// One past the highest physical address reported by the boot memory map.
    pub physical_memory_size: u64,
}

impl MemoryLayout {
    /// The direct map lies entirely inside one canonical half of the
    /// virtual address space, so that every direct-mapped address is
    /// canonical and computing it cannot overflow.
    pub open spec fn wf(&self) -> bool {
        ||| self.direct_map_start + self.physical_memory_size <= LOWER_HALF_END
        ||| (self.direct_map_start >= HIGHER_HALF_START && self.direct_map_start
            + self.physical_memory_size <= 0x1_0000_0000_0000_0000)
    }

    /// Records the configuration if the direct map fits into one canonical
    /// half.
    pub fn new(direct_map_start: u64, physical_memory_size: u64) -> (layout: Option<Self>)
        ensures
            layout.is_some() <==> (MemoryLayout { direct_map_start, physical_memory_size }).wf(),
            layout matches Some(l) ==> l.direct_map_start == direct_map_start
                && l.physical_memory_size == physical_memory_size,
    {
        let fits_low = direct_map_start <= LOWER_HALF_END && physical_memory_size <= LOWER_HALF_END
            - direct_map_start;
        let fits_high = direct_map_start >= HIGHER_HALF_START && (physical_memory_size == 0
            || physical_memory_size - 1 <= u64::MAX - direct_map_start);
        if fits_low || fits_high {
            Some(MemoryLayout { direct_map_start, physical_memory_size })
        } else {
            None
        }
    }

    /// Whether `virtual_address` lies strictly above the start of the direct
    /// map and below its end.
    pub open spec fn maps(&self, virtual_address: u64) -> bool {
        virtual_address > self.direct_map_start && virtual_address - self.direct_map_start
            < self.physical_memory_size
    }
}

/// An address on the physical memory bus.
#[derive(Clone, Copy, Debug)]
pub struct PhysicalAddress {
    address: u64,
}

impl View for PhysicalAddress {
    type V = u64;

    closed spec fn view(&self) -> u64 {
        self.address
    }
}

impl PhysicalAddress {
    /// Whether `address` may be the target of a physical address under
    /// `layout`: it is not in page zero and lies inside physical memory.
    pub open spec fn in_range(address: u64, layout: MemoryLayout) -> bool {
        PAGE_SIZE <= address < layout.physical_memory_size
    }

    /// Whether this address is in range under `layout`.
    pub open spec fn valid(&self, layout: MemoryLayout) -> bool {
        Self::in_range(self@, layout)
    }

    /// Whether the low twelve bits of the address are clear.
    pub open spec fn spec_is_frame_aligned(&self) -> bool {
        self@ % 4096 == 0
    }

    /// Creates a physical address. Addresses in page zero and addresses at
    /// or beyond the end of physical memory are rejected.
    pub fn new(address: u64, layout: &MemoryLayout) -> (result: Option<Self>)
        ensures
            result.is_some() <==> Self::in_range(address, *layout),
            result matches Some(p) ==> p@ == address,
    {
        if address < layout.physical_memory_size && address >= PAGE_SIZE {
            Some(PhysicalAddress { address })
        } else {
            None
        }
    }

    /// The address as a plain integer.
    pub fn get_address(&self) -> (address: u64)
        ensures
            address == self@,
    {
        self.address
    }

    /// Whether this address is the start of a 4 KiB page frame.
    #[verifier::when_used_as_spec(spec_is_frame_aligned)]
    pub fn is_frame_aligned(&self) -> (aligned: bool)
        ensures
            aligned == self.spec_is_frame_aligned(),
    {
        let address = self.address;
        assert(address & 0xFFF == 0 <==> address % 4096 == 0) by (bit_vector);
        self.address & 0xFFF == 0
    }
}

/// A canonical 48-bit virtual address, cut into the page offset, the four
/// table indices and the sign extension.
#[derive(Clone, Copy, Debug)]
pub struct VirtualAddress {
    bits: u64,
}

impl View for VirtualAddress {
    type V = u64;

    closed spec fn view(&self) -> u64 {
        self.bits
    }
}

impl VirtualAddress {
    /// Offset of the byte inside its page: bits 0 to 11.
    pub open spec fn spec_page_offset(&self) -> usize {
        field_of(self@, 0, 12) as usize
    }

    /// Index into the page table: bits 12 to 20.
    pub open spec fn spec_page_table_index(&self) -> usize {
        field_of(self@, 12, 9) as usize
    }

    /// Index into the page directory: bits 21 to 29.
    pub open spec fn spec_page_directory_index(&self) -> usize {
        field_of(self@, 21, 9) as usize
    }

    /// Index into the page directory pointer table: bits 30 to 38.
    pub open spec fn spec_pdpt_index(&self) -> usize {
        field_of(self@, 30, 9) as usize
    }

    /// Index into the top-level table: bits 39 to 47.
    pub open spec fn spec_pml4_index(&self) -> usize {
        field_of(self@, 39, 9) as usize
    }

    /// Bits 48 to 63.
    pub open spec fn spec_sign_extension(&self) -> u16 {
        field_of(self@, 48, 16) as u16
    }

    /// Whether the sign extension repeats the top bit of the top-level
    /// index.
    pub open spec fn canonical(&self) -> bool {
        is_canonical(self@)
    }

    /// Every field is the corresponding bit range of the address, and is
    /// bounded by its width.
    pub proof fn lemma_fields(&self)
        ensures
            self.spec_page_offset() == field_of(self@, 0, 12),
            self.spec_page_table_index() == field_of(self@, 12, 9),
            self.spec_page_directory_index() == field_of(self@, 21, 9),
            self.spec_pdpt_index() == field_of(self@, 30, 9),
            self.spec_pml4_index() == field_of(self@, 39, 9),
            self.spec_sign_extension() == field_of(self@, 48, 16),
            self.spec_page_offset() < 4096,
            self.spec_page_table_index() < 512,
            self.spec_page_directory_index() < 512,
            self.spec_pdpt_index() < 512,
            self.spec_pml4_index() < 512,
    {
        crate::bits::lemma_low_mask_values();
        crate::bits::lemma_field_bound(self@, 0, 12);
        crate::bits::lemma_field_bound(self@, 12, 9);
        crate::bits::lemma_field_bound(self@, 21, 9);
        crate::bits::lemma_field_bound(self@, 30, 9);
        crate::bits::lemma_field_bound(self@, 39, 9);
        crate::bits::lemma_field_bound(self@, 48, 16);
    }

    /// Creates a virtual address from its 64-bit value. Non-canonical values
    /// are rejected.
    pub fn create(virtual_address: u64) -> (result: Option<Self>)
        ensures
            result.is_some() <==> is_canonical(virtual_address),
            result matches Some(v) ==> v@ == virtual_address,
    {
        let new = VirtualAddress { bits: virtual_address };
        let top_bit = get_field(virtual_address, 47, 1);
        proof {
            lemma_canonical_halves(virtual_address);
            new.lemma_fields();
        }
        if (new.sign_extension() == 0 && top_bit == 0) || (new.sign_extension() == 0xFFFF
            && top_bit == 1) {
            Some(new)
        } else {
            None
        }
    }

    /// The 64-bit value of the address.
    pub fn address(&self) -> (value: u64)
        ensures
            value == self@,
    {
        self.bits
    }

    /// Offset of the byte inside its page.
    #[verifier::when_used_as_spec(spec_page_offset)]
    pub fn page_offset(&self) -> (offset: usize)
        ensures
            offset == self.spec_page_offset(),
            offset < 4096,
    {
        let field = get_field(self.bits, 0, 12);
        proof {
            crate::bits::lemma_low_mask_values();
        }
        field as usize
    }

    /// Index into the page table.
    #[verifier::when_used_as_spec(spec_page_table_index)]
    pub fn page_table_index(&self) -> (index: usize)
        ensures
            index == self.spec_page_table_index(),
            index < 512,
    {
        let field = get_field(self.bits, 12, 9);
        proof {
            crate::bits::lemma_low_mask_values();
        }
        field as usize
    }

    /// Index into the page directory.
    #[verifier::when_used_as_spec(spec_page_directory_index)]
    pub fn page_directory_index(&self) -> (index: usize)
        ensures
            index == self.spec_page_directory_index(),
            index < 512,
    {
        let field = get_field(self.bits, 21, 9);
        proof {
            crate::bits::lemma_low_mask_values();
        }
        field as usize
    }

    /// Index into the page directory pointer table.
    #[verifier::when_used_as_spec(spec_pdpt_index)]
    pub fn pdpt_index(&self) -> (index: usize)
        ensures
            index == self.spec_pdpt_index(),
            index < 512,
    {
        let field = get_field(self.bits, 30, 9);
        proof {
            crate::bits::lemma_low_mask_values();
        }
        field as usize
    }

    /// Index into the top-level table.
    #[verifier::when_used_as_spec(spec_pml4_index)]
    pub fn pml4_index(&self) -> (index: usize)
        ensures
            index == self.spec_pml4_index(),
            index < 512,
    {
        let field = get_field(self.bits, 39, 9);
        proof {
            crate::bits::lemma_low_mask_values();
        }
        field as usize
    }

    /// Bits 48 to 63 of the address.
    #[verifier::when_used_as_spec(spec_sign_extension)]
    pub fn sign_extension(&self) -> (extension: u16)
        ensures
            extension == self.spec_sign_extension(),
    {
        let field = get_field(self.bits, 48, 16);
        proof {
            crate::bits::lemma_low_mask_values();
        }
        field as u16
    }
}

impl VirtualAddress {
    /// Replaces the offset inside the page. The other fields keep their
    /// values.
    pub fn set_page_offset(&mut self, offset: usize)
        requires
            offset < 4096,
        ensures
            final(self)@ == with_field(old(self)@, 0, 12, offset as u64),
            final(self).spec_page_offset() == offset,
            final(self).spec_page_table_index() == old(self).spec_page_table_index(),
            final(self).spec_page_directory_index() == old(self).spec_page_directory_index(),
            final(self).spec_pdpt_index() == old(self).spec_pdpt_index(),
            final(self).spec_pml4_index() == old(self).spec_pml4_index(),
            final(self).spec_sign_extension() == old(self).spec_sign_extension(),
    {
        proof {
            crate::bits::lemma_low_mask_values();
        }
        self.bits = set_field(self.bits, 0, 12, offset as u64);
    }

    /// Replaces the page-table index. The other fields keep their values.
    pub fn set_page_table_index(&mut self, index: usize)
        requires
            index < 512,
        ensures
            final(self)@ == with_field(old(self)@, 12, 9, index as u64),
            final(self).spec_page_table_index() == index,
            final(self).spec_page_offset() == old(self).spec_page_offset(),
            final(self).spec_page_directory_index() == old(self).spec_page_directory_index(),
            final(self).spec_pdpt_index() == old(self).spec_pdpt_index(),
            final(self).spec_pml4_index() == old(self).spec_pml4_index(),
            final(self).spec_sign_extension() == old(self).spec_sign_extension(),
    {
        proof {
            crate::bits::lemma_low_mask_values();
        }
        self.bits = set_field(self.bits, 12, 9, index as u64);
    }

    /// Replaces the page-directory index. The other fields keep their
    /// values.
    pub fn set_page_directory_index(&mut self, index: usize)
        requires
            index < 512,
        ensures
            final(self)@ == with_field(old(self)@, 21, 9, index as u64),
            final(self).spec_page_directory_index() == index,
            final(self).spec_page_offset() == old(self).spec_page_offset(),
            final(self).spec_page_table_index() == old(self).spec_page_table_index(),
            final(self).spec_pdpt_index() == old(self).spec_pdpt_index(),
            final(self).spec_pml4_index() == old(self).spec_pml4_index(),
            final(self).spec_sign_extension() == old(self).spec_sign_extension(),
    {
        proof {
            crate::bits::lemma_low_mask_values();
        }
        self.bits = set_field(self.bits, 21, 9, index as u64);
    }

    /// Replaces the index into the page directory pointer table. The other
    /// fields keep their values.
    pub fn set_pdpt_index(&mut self, index: usize)
        requires
            index < 512,
        ensures
            final(self)@ == with_field(old(self)@, 30, 9, index as u64),
            final(self).spec_pdpt_index() == index,
            final(self).spec_page_offset() == old(self).spec_page_offset(),
            final(self).spec_page_table_index() == old(self).spec_page_table_index(),
            final(self).spec_page_directory_index() == old(self).spec_page_directory_index(),
            final(self).spec_pml4_index() == old(self).spec_pml4_index(),
            final(self).spec_sign_extension() == old(self).spec_sign_extension(),
    {
        proof {
            crate::bits::lemma_low_mask_values();
        }
        self.bits = set_field(self.bits, 30, 9, index as u64);
    }

    /// Replaces the top-level index. The other fields keep their values, so
    /// the result is canonical only if the sign extension is set to match.
    pub fn set_pml4_index(&mut self, index: usize)
        requires
            index < 512,
        ensures
            final(self)@ == with_field(old(self)@, 39, 9, index as u64),
            final(self).spec_pml4_index() == index,
            final(self).spec_page_offset() == old(self).spec_page_offset(),
            final(self).spec_page_table_index() == old(self).spec_page_table_index(),
            final(self).spec_page_directory_index() == old(self).spec_page_directory_index(),
            final(self).spec_pdpt_index() == old(self).spec_pdpt_index(),
            final(self).spec_sign_extension() == old(self).spec_sign_extension(),
    {
        proof {
            crate::bits::lemma_low_mask_values();
        }
        self.bits = set_field(self.bits, 39, 9, index as u64);
    }

    /// Replaces bits 48 to 63. The other fields keep their values.
    pub fn set_sign_extension(&mut self, extension: u16)
        ensures
            final(self)@ == with_field(old(self)@, 48, 16, extension as u64),
            final(self).spec_sign_extension() == extension,
            final(self).spec_page_offset() == old(self).spec_page_offset(),
            final(self).spec_page_table_index() == old(self).spec_page_table_index(),
            final(self).spec_page_directory_index() == old(self).spec_page_directory_index(),
            final(self).spec_pdpt_index() == old(self).spec_pdpt_index(),
            final(self).spec_pml4_index() == old(self).spec_pml4_index(),
    {
        proof {
            crate::bits::lemma_low_mask_values();
        }
        self.bits = set_field(self.bits, 48, 16, extension as u64);
    }

    /// The sign extension that makes an address with the given top-level
    /// index canonical.
    pub open spec fn extension_for(pml4_index: usize) -> u16 {
        if pml4_index >= 256 {
            0xFFFFu16
        } else {
            0u16
        }
    }

    /// A virtual address is canonical exactly if its sign extension is the
    /// one that its top-level index calls for.
    pub proof fn lemma_canonical_by_fields(&self)
        ensures
            self.canonical() <==> self.spec_sign_extension() == Self::extension_for(
                self.spec_pml4_index(),
            ),
    {
        self.lemma_fields();
        lemma_canonical_halves(self@);
    }

    /// The 64-bit value that has the given fields.
    pub open spec fn assemble(
        sign_extension: u16,
        pml4_index: usize,
        pdpt_index: usize,
        page_directory_index: usize,
        page_table_index: usize,
        page_offset: usize,
    ) -> u64 {
        (page_offset as u64) | ((page_table_index as u64) << 12) | ((page_directory_index as u64)
            << 21) | ((pdpt_index as u64) << 30) | ((pml4_index as u64) << 39) | ((
        sign_extension as u64) << 48)
    }

    /// Putting the six fields of an address back together gives the address
    /// itself.
    pub proof fn lemma_reassemble(&self)
        ensures
            Self::assemble(
                self.spec_sign_extension(),
                self.spec_pml4_index(),
                self.spec_pdpt_index(),
                self.spec_page_directory_index(),
                self.spec_page_table_index(),
                self.spec_page_offset(),
            ) == self@,
    {
        self.lemma_fields();
        lemma_split(self@);
    }

    /// Builds the address that has the given fields. The address is rejected
    /// if it is not canonical.
    pub fn from_fields(
        sign_extension: u16,
        pml4_index: usize,
        pdpt_index: usize,
        page_directory_index: usize,
        page_table_index: usize,
        page_offset: usize,
    ) -> (result: Option<Self>)
        requires
            pml4_index < 512,
            pdpt_index < 512,
            page_directory_index < 512,
            page_table_index < 512,
            page_offset < 4096,
        ensures
            result.is_some() <==> sign_extension == Self::extension_for(pml4_index),
            result matches Some(v) ==> {
                &&& v@ == Self::assemble(
                    sign_extension,
                    pml4_index,
                    pdpt_index,
                    page_directory_index,
                    page_table_index,
                    page_offset,
                )
                &&& v.canonical()
                &&& v.spec_sign_extension() == sign_extension
                &&& v.spec_pml4_index() == pml4_index
                &&& v.spec_pdpt_index() == pdpt_index
                &&& v.spec_page_directory_index() == page_directory_index
                &&& v.spec_page_table_index() == page_table_index
                &&& v.spec_page_offset() == page_offset
            },
    {
        let value: u64 = (page_offset as u64) | ((page_table_index as u64) << 12) | ((
        page_directory_index as u64) << 21) | ((pdpt_index as u64) << 30) | ((pml4_index as u64)
            << 39) | ((sign_extension as u64) << 48);
        proof {
            lemma_join(
                sign_extension as u64,
                pml4_index as u64,
                pdpt_index as u64,
                page_directory_index as u64,
                page_table_index as u64,
                page_offset as u64,
            );
            lemma_canonical_halves(value);
            (VirtualAddress { bits: value }).lemma_fields();
        }
        Self::create(value)
    }
}

/// A word is the sum of its six address fields, each at its place.
proof fn lemma_split_sum(value: u64)
    by (bit_vector)
    ensures
        value == field_of(value, 0, 12) + field_of(value, 12, 9) * 0x1000 + field_of(value, 21, 9)
            * 0x20_0000 + field_of(value, 30, 9) * 0x4000_0000 + field_of(value, 39, 9)
            * 0x80_0000_0000 + field_of(value, 48, 16) * 0x1_0000_0000_0000,
{
}

impl VirtualAddress {
    /// The address as a number: the sum of its fields, each multiplied by
    /// the weight of its lowest bit.
    pub proof fn lemma_address_is_sum(&self)
        ensures
            self@ == self.spec_page_offset() + self.spec_page_table_index() * 0x1000
                + self.spec_page_directory_index() * 0x20_0000 + self.spec_pdpt_index()
                * 0x4000_0000 + self.spec_pml4_index() * 0x80_0000_0000 + self.spec_sign_extension()
                * 0x1_0000_0000_0000,
    {
        self.lemma_fields();
        lemma_split_sum(self@);
    }
}

/// A word is the union of its six address fields.
proof fn lemma_split(value: u64)
    by (bit_vector)
    ensures
        field_of(value, 0, 12) | (field_of(value, 12, 9) << 12) | (field_of(value, 21, 9) << 21) | (
        field_of(value, 30, 9) << 30) | (field_of(value, 39, 9) << 39) | (field_of(value, 48, 16)
            << 48) == value,
{
}

/// The fields of a word joined from six in-range parts are those parts.
proof fn lemma_join(sign: u64, pml4: u64, pdpt: u64, directory: u64, table: u64, offset: u64)
    by (bit_vector)
    requires
        sign <= 0xFFFF,
        pml4 < 512,
        pdpt < 512,
        directory < 512,
        table < 512,
        offset < 4096,
    ensures
        ({
            let value = offset | (table << 12) | (directory << 21) | (pdpt << 30) | (pml4 << 39) | (
            sign << 48);
            &&& field_of(value, 0, 12) == offset
            &&& field_of(value, 12, 9) == table
            &&& field_of(value, 21, 9) == directory
            &&& field_of(value, 30, 9) == pdpt
            &&& field_of(value, 39, 9) == pml4
            &&& field_of(value, 48, 16) == sign
        }),
{
}

/// A physical address seen through the direct map: the virtual address is
/// the physical address plus the start of the direct map.
#[derive(Clone, Copy, Debug)]
pub struct DirectMappedAddress {
    physical_address: PhysicalAddress,
}

impl DirectMappedAddress {
    /// The physical address behind this direct-mapped address.
    pub closed spec fn physical(&self) -> u64 {
        self.physical_address@
    }

    /// Whether the address lies inside the physical memory of `layout`, so
    /// that its virtual address exists.
    pub open spec fn in_bounds(&self, layout: MemoryLayout) -> bool {
        self.physical() < layout.physical_memory_size
    }

    /// The virtual address at which `layout` maps this address.
    pub open spec fn virtual_of(&self, layout: MemoryLayout) -> int {
        self.physical() + layout.direct_map_start
    }

    /// Whether an object of `size` bytes with alignment `alignment` can be
    /// accessed at this address: it ends inside physical memory and its
    /// virtual address is a multiple of the alignment.
    pub open spec fn accessible(&self, layout: MemoryLayout, size: int, alignment: int) -> bool {
        &&& self.physical() + size <= layout.physical_memory_size
        &&& self.virtual_of(layout) % alignment == 0
    }

    /// Turns a virtual address inside the direct map back into the physical
    /// address it stands for.
    pub fn from_virtual(virtual_address: VirtualAddress, layout: &MemoryLayout) -> (result: Self)
        requires
            layout.maps(virtual_address@),
        ensures
            result.physical() == virtual_address@ - layout.direct_map_start,
            result.in_bounds(*layout),
    {
        let physical_address = virtual_address.address() - layout.direct_map_start;
        Self { physical_address: PhysicalAddress { address: physical_address } }
    }

    /// Like [`DirectMappedAddress::from_virtual`], but answers `None` for a
    /// virtual address that is not above the start of the direct map or
    /// that lies beyond its end.
    pub fn try_from_virtual(virtual_address: VirtualAddress, layout: &MemoryLayout) -> (result:
        Option<Self>)
        ensures
            result.is_some() <==> layout.maps(virtual_address@),
            result matches Some(d) ==> d.physical() == virtual_address@ - layout.direct_map_start
                && d.in_bounds(*layout),
    {
        if virtual_address.address() <= layout.direct_map_start {
            return None;
        }
        let physical_address = virtual_address.address() - layout.direct_map_start;
        if physical_address >= layout.physical_memory_size {
            return None;
        }
        Some(Self { physical_address: PhysicalAddress { address: physical_address } })
    }

    /// The direct-mapped view of a physical address.
    pub fn from_physical(physical_address: PhysicalAddress) -> (result: Self)
        ensures
            result.physical() == physical_address@,
    {
        DirectMappedAddress { physical_address }
    }

    /// The physical address behind this direct-mapped address.
    pub fn get_physical_address(&self) -> (physical_address: PhysicalAddress)
        ensures
            physical_address@ == self.physical(),
    {
        self.physical_address
    }

    /// The virtual address at which this address is mapped.
    pub fn get_virtual_address(&self, layout: &MemoryLayout) -> (virtual_address: VirtualAddress)
        requires
            layout.wf(),
            self.in_bounds(*layout),
        ensures
            virtual_address@ == self.virtual_of(*layout),
            virtual_address.canonical(),
    {
        let value: u64 = self.physical_address.get_address() + layout.direct_map_start;
        proof {
            lemma_canonical_halves(value);
        }
        VirtualAddress::create(value).unwrap()
    }

    /// The virtual address through which an object of `size` bytes that
    /// must be aligned to `alignment` bytes can be accessed at this address,
    /// or `None` if the object would end beyond physical memory or the
    /// virtual address is not a multiple of the alignment.
    pub fn as_pointer_aligned(&self, size: u64, alignment: u64, layout: &MemoryLayout) -> (pointer:
        Option<u64>)
        requires
            layout.wf(),
            self.in_bounds(*layout),
            alignment > 0,
        ensures
            pointer.is_some() <==> self.accessible(*layout, size as int, alignment as int),
            pointer matches Some(p) ==> p == self.virtual_of(*layout),
    {
        if size > layout.physical_memory_size - self.physical_address.get_address() {
            return None;
        }
        let virtual_address = self.get_virtual_address(layout).address();
        if virtual_address % alignment != 0 {
            return None;
        }
        Some(virtual_address)
    }

    /// The virtual address through which an object of type `T` at this
    /// address can be accessed, or `None` if the object would end beyond
    /// physical memory or the virtual address is not aligned for `T`.
    pub fn as_pointer<T>(&self, layout: &MemoryLayout) -> (pointer: Option<u64>)
        requires
            layout.wf(),
            self.in_bounds(*layout),
        ensures
            pointer.is_some() <==> self.accessible(
                *layout,
                vstd::layout::size_of::<T>() as int,
                vstd::layout::align_of::<T>() as int,
            ),
            pointer matches Some(p) ==> p == self.virtual_of(*layout),
    {
        vstd::layout::layout_for_type_is_valid::<T>();
        let size: usize = core::mem::size_of::<T>();
        self.as_pointer_with_size::<T>(size as u64, layout)
    }

    /// Like [`DirectMappedAddress::as_pointer`], for an object whose size in
    /// bytes is known only at run time.
    pub fn as_pointer_with_size<T>(&self, size: u64, layout: &MemoryLayout) -> (pointer: Option<
        u64,
    >)
        requires
            layout.wf(),
            self.in_bounds(*layout),
        ensures
            pointer.is_some() <==> self.accessible(
                *layout,
                size as int,
                vstd::layout::align_of::<T>() as int,
            ),
            pointer matches Some(p) ==> p == self.virtual_of(*layout),
    {
        vstd::layout::layout_for_type_is_valid::<T>();
        let alignment: usize = core::mem::align_of::<T>();
        self.as_pointer_aligned(size, alignment as u64, layout)
    }
}

} // verus!
