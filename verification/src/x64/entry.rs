//! The entries of the four paging structures.
//!
//! Every entry is one 64-bit word. Bit 0 says whether the entry is present;
//! in a page directory pointer table and in a page directory, bit 7 says
//! whether the entry maps a huge page or refers to the next table. The
//! accessors below read and write one field each and leave the rest of the
//! word alone.

use crate::bits::{
    field_of, flag_of, flag_word, get_field, get_flag, lemma_field_bound, lemma_low_mask_values,
    only_field_changed, set_field, set_flag, with_field,
};
use crate::memory::{DirectMappedAddress, MemoryLayout, PhysicalAddress, VirtualAddress, PAGE_SIZE};
use crate::pmm::Frame;
use vstd::prelude::*;

verus! {

/// The largest physical address that the address field of an entry can
/// hold, plus one: physical addresses have at most 52 bits.
pub const PHYSICAL_ADDRESS_LIMIT: u64 = 0x10_0000_0000_0000;

/// How shifting a table or page number into place relates to multiplying
/// it by the size of what it counts.
pub proof fn lemma_number_shifts(number: u64)
    by (bit_vector)
    ensures
        number <= 0xFF_FFFF_FFFFu64 ==> (number << 12) == number * 4096,
        number <= 0x7FFF_FFFFu64 ==> (number << 21) == number * 0x20_0000,
        number <= 0x3F_FFFFu64 ==> (number << 30) == number * 0x4000_0000,
        (number >> 12) == number / 4096,
        number < 0x10_0000_0000_0000u64 ==> (number >> 12) <= 0xFF_FFFF_FFFFu64,
{
}

/// Whether `address` is the physical address of a table that can be reached
/// through the direct map of `layout`: it is in range, the table's page
/// ends inside physical memory, and the table's virtual address is page
/// aligned.
pub open spec fn table_reachable(address: u64, layout: MemoryLayout) -> bool {
    &&& PhysicalAddress::in_range(address, layout)
    &&& address + PAGE_SIZE <= layout.physical_memory_size
    &&& (address + layout.direct_map_start) % 4096 == 0
}

/// Whether `pointer` is the direct-mapped virtual address of some byte of
/// physical memory under `layout`.
pub open spec fn table_pointer(pointer: u64, layout: MemoryLayout) -> bool {
    crate::memory::is_canonical(pointer) && layout.maps(pointer)
}

/// An entry of the top-level table. It refers to a page directory pointer
/// table.
#[derive(Clone, Copy, Debug)]
pub struct Pml4Entry {
    bits: u64,
}

impl View for Pml4Entry {
    type V = u64;

    closed spec fn view(&self) -> u64 {
        self.bits
    }
}

impl Pml4Entry {
    /// The entry with every bit clear.
    pub fn new() -> (entry: Self)
        ensures
            entry@ == 0,
    {
        Pml4Entry { bits: 0 }
    }

    /// The entry that the word `bits` stands for.
    pub fn from_bits(bits: u64) -> (entry: Self)
        ensures
            entry@ == bits,
    {
        Pml4Entry { bits }
    }

    /// The word that stands for the entry.
    pub fn into_bits(&self) -> (bits: u64)
        ensures
            bits == self@,
    {
        self.bits
    }

    /// Whether the entry is in use. Bit 0.
    pub open spec fn spec_present(&self) -> bool {
        flag_of(self@, 0)
    }

    /// Whether the entry is in use.
    #[verifier::when_used_as_spec(spec_present)]
    pub fn present(&self) -> (flag: bool)
        ensures
            flag == self.spec_present(),
    {
        get_flag(self.bits, 0)
    }

    /// Sets or clears bit 0. Every other field keeps its value.
    pub fn set_present(&mut self, present: bool)
        ensures
            final(self)@ == with_field(old(self)@, 0, 1, flag_word(present)),
            final(self).spec_present() == present,
            only_field_changed(old(self)@, final(self)@, 0, 1),
    {
        self.bits = set_flag(self.bits, 0, present);
    }

    /// Whether writes are allowed through the entry. Bit 1.
    pub open spec fn spec_read_write(&self) -> bool {
        flag_of(self@, 1)
    }

    /// Whether writes are allowed through the entry.
    #[verifier::when_used_as_spec(spec_read_write)]
    pub fn read_write(&self) -> (flag: bool)
        ensures
            flag == self.spec_read_write(),
    {
        get_flag(self.bits, 1)
    }

    /// Sets or clears bit 1. Every other field keeps its value.
    pub fn set_read_write(&mut self, read_write: bool)
        ensures
            final(self)@ == with_field(old(self)@, 1, 1, flag_word(read_write)),
            final(self).spec_read_write() == read_write,
            only_field_changed(old(self)@, final(self)@, 1, 1),
    {
        self.bits = set_flag(self.bits, 1, read_write);
    }

    /// Whether user-mode accesses are allowed through the entry. Bit 2.
    pub open spec fn spec_user_supervisor(&self) -> bool {
        flag_of(self@, 2)
    }

    /// Whether user-mode accesses are allowed through the entry.
    #[verifier::when_used_as_spec(spec_user_supervisor)]
    pub fn user_supervisor(&self) -> (flag: bool)
        ensures
            flag == self.spec_user_supervisor(),
    {
        get_flag(self.bits, 2)
    }

    /// Sets or clears bit 2. Every other field keeps its value.
    pub fn set_user_supervisor(&mut self, user_supervisor: bool)
        ensures
            final(self)@ == with_field(old(self)@, 2, 1, flag_word(user_supervisor)),
            final(self).spec_user_supervisor() == user_supervisor,
            only_field_changed(old(self)@, final(self)@, 2, 1),
    {
        self.bits = set_flag(self.bits, 2, user_supervisor);
    }

    /// Whether the processor has used the entry. Bit 5.
    pub open spec fn spec_accessed(&self) -> bool {
        flag_of(self@, 5)
    }

    /// Whether the processor has used the entry.
    #[verifier::when_used_as_spec(spec_accessed)]
    pub fn accessed(&self) -> (flag: bool)
        ensures
            flag == self.spec_accessed(),
    {
        get_flag(self.bits, 5)
    }

    /// Sets or clears bit 5. Every other field keeps its value.
    pub fn set_accessed(&mut self, accessed: bool)
        ensures
            final(self)@ == with_field(old(self)@, 5, 1, flag_word(accessed)),
            final(self).spec_accessed() == accessed,
            only_field_changed(old(self)@, final(self)@, 5, 1),
    {
        self.bits = set_flag(self.bits, 5, accessed);
    }

    /// Whether instruction fetches are forbidden through the entry. Bit 63.
    pub open spec fn spec_execute_disable(&self) -> bool {
        flag_of(self@, 63)
    }

    /// Whether instruction fetches are forbidden through the entry.
    #[verifier::when_used_as_spec(spec_execute_disable)]
    pub fn execute_disable(&self) -> (flag: bool)
        ensures
            flag == self.spec_execute_disable(),
    {
        get_flag(self.bits, 63)
    }

    /// Sets or clears bit 63. Every other field keeps its value.
    pub fn set_execute_disable(&mut self, execute_disable: bool)
        ensures
            final(self)@ == with_field(old(self)@, 63, 1, flag_word(execute_disable)),
            final(self).spec_execute_disable() == execute_disable,
            only_field_changed(old(self)@, final(self)@, 63, 1),
    {
        self.bits = set_flag(self.bits, 63, execute_disable);
    }

    /// The number of the frame that holds the next table: bits 12 to 51.
    pub open spec fn spec_internal_addr(&self) -> u64 {
        field_of(self@, 12, 40)
    }

    /// The number of the frame that holds the next table.
    #[verifier::when_used_as_spec(spec_internal_addr)]
    pub fn internal_addr(&self) -> (number: u64)
        ensures
            number == self.spec_internal_addr(),
            number <= 0xFF_FFFF_FFFF,
    {
        proof {
            lemma_low_mask_values();
        }
        get_field(self.bits, 12, 40)
    }

    /// Replaces the number of the frame that holds the next table. Every other field keeps its
    /// value.
    pub fn set_internal_addr(&mut self, number: u64)
        requires
            number <= 0xFF_FFFF_FFFF,
        ensures
            final(self)@ == with_field(old(self)@, 12, 40, number),
            final(self).spec_internal_addr() == number,
            only_field_changed(old(self)@, final(self)@, 12, 40),
    {
        proof {
            lemma_low_mask_values();
        }
        self.bits = set_field(self.bits, 12, 40, number);
    }

    /// The physical address that the entry holds: the frame number times
    /// the page size.
    pub open spec fn spec_address(&self) -> u64 {
        (self.spec_internal_addr() * 4096) as u64
    }

    /// The physical address of the page directory pointer table that the entry refers to.
    pub fn address(&self, layout: &MemoryLayout) -> (physical_address: PhysicalAddress)
        requires
            PhysicalAddress::in_range(self.spec_address(), *layout),
        ensures
            physical_address@ == self.spec_address(),
    {
        let number = self.internal_addr();
        proof {
            lemma_number_shifts(number);
        }
        PhysicalAddress::new(number << 12, layout).unwrap()
    }

    /// Makes the entry refer to `physical_address`; the offset inside its page is dropped. Every
    /// field but the
    /// address keeps its value.
    pub fn set_address(&mut self, physical_address: PhysicalAddress)
        requires
            physical_address@ < PHYSICAL_ADDRESS_LIMIT,
        ensures
            final(self).spec_address() == physical_address@ - physical_address@ % 4096,
            final(self)@ == with_field(old(self)@, 12, 40, physical_address@ / 4096),
            only_field_changed(old(self)@, final(self)@, 12, 40),
    {
        let address = physical_address.get_address();
        proof {
            lemma_number_shifts(address);
        }
        self.set_internal_addr(address >> 12);
    }

    /// The direct-mapped virtual address of the page directory pointer table that the entry
    /// refers to.
    pub fn pdpt(&self, layout: &MemoryLayout) -> (pointer: u64)
        requires
            layout.wf(),
            table_reachable(self.spec_address(), *layout),
        ensures
            pointer == self.spec_address() + layout.direct_map_start,
    {
        let direct = DirectMappedAddress::from_physical(self.address(layout));
        direct.as_pointer_aligned(PAGE_SIZE, PAGE_SIZE, layout).unwrap()
    }

    /// Makes the entry refer to the page directory pointer table at the direct-mapped virtual
    /// address `pointer`. Every field but the address keeps its value.
    pub fn set_pdpt(&mut self, pointer: u64, layout: &MemoryLayout)
        requires
            layout.wf(),
            table_pointer(pointer, *layout),
            (pointer - layout.direct_map_start) % 4096 == 0,
        ensures
            final(self).spec_address() == pointer - layout.direct_map_start,
            only_field_changed(old(self)@, final(self)@, 12, 40),
    {
        let direct_mapped_address = DirectMappedAddress::from_virtual(
            VirtualAddress::create(pointer).unwrap(),
            layout,
        );
        self.set_address(direct_mapped_address.get_physical_address())
    }
}

/// An entry of a page directory pointer table that maps a 1 GiB page.
#[derive(Clone, Copy, Debug)]
pub struct PdptEntryHugePage {
    bits: u64,
}

impl View for PdptEntryHugePage {
    type V = u64;

    closed spec fn view(&self) -> u64 {
        self.bits
    }
}

impl PdptEntryHugePage {
    /// The entry with every bit clear.
    pub fn new() -> (entry: Self)
        ensures
            entry@ == 0,
    {
        PdptEntryHugePage { bits: 0 }
    }

    /// The entry that the word `bits` stands for.
    pub fn from_bits(bits: u64) -> (entry: Self)
        ensures
            entry@ == bits,
    {
        PdptEntryHugePage { bits }
    }

    /// The word that stands for the entry.
    pub fn into_bits(&self) -> (bits: u64)
        ensures
            bits == self@,
    {
        self.bits
    }

    /// Whether the entry is in use. Bit 0.
    pub open spec fn spec_present(&self) -> bool {
        flag_of(self@, 0)
    }

    /// Whether the entry is in use.
    #[verifier::when_used_as_spec(spec_present)]
    pub fn present(&self) -> (flag: bool)
        ensures
            flag == self.spec_present(),
    {
        get_flag(self.bits, 0)
    }

    /// Sets or clears bit 0. Every other field keeps its value.
    pub fn set_present(&mut self, present: bool)
        ensures
            final(self)@ == with_field(old(self)@, 0, 1, flag_word(present)),
            final(self).spec_present() == present,
            only_field_changed(old(self)@, final(self)@, 0, 1),
    {
        self.bits = set_flag(self.bits, 0, present);
    }

    /// Whether writes are allowed through the entry. Bit 1.
    pub open spec fn spec_read_write(&self) -> bool {
        flag_of(self@, 1)
    }

    /// Whether writes are allowed through the entry.
    #[verifier::when_used_as_spec(spec_read_write)]
    pub fn read_write(&self) -> (flag: bool)
        ensures
            flag == self.spec_read_write(),
    {
        get_flag(self.bits, 1)
    }

    /// Sets or clears bit 1. Every other field keeps its value.
    pub fn set_read_write(&mut self, read_write: bool)
        ensures
            final(self)@ == with_field(old(self)@, 1, 1, flag_word(read_write)),
            final(self).spec_read_write() == read_write,
            only_field_changed(old(self)@, final(self)@, 1, 1),
    {
        self.bits = set_flag(self.bits, 1, read_write);
    }

    /// Whether user-mode accesses are allowed through the entry. Bit 2.
    pub open spec fn spec_user_supervisor(&self) -> bool {
        flag_of(self@, 2)
    }

    /// Whether user-mode accesses are allowed through the entry.
    #[verifier::when_used_as_spec(spec_user_supervisor)]
    pub fn user_supervisor(&self) -> (flag: bool)
        ensures
            flag == self.spec_user_supervisor(),
    {
        get_flag(self.bits, 2)
    }

    /// Sets or clears bit 2. Every other field keeps its value.
    pub fn set_user_supervisor(&mut self, user_supervisor: bool)
        ensures
            final(self)@ == with_field(old(self)@, 2, 1, flag_word(user_supervisor)),
            final(self).spec_user_supervisor() == user_supervisor,
            only_field_changed(old(self)@, final(self)@, 2, 1),
    {
        self.bits = set_flag(self.bits, 2, user_supervisor);
    }

    /// Whether the processor has used the entry. Bit 5.
    pub open spec fn spec_accessed(&self) -> bool {
        flag_of(self@, 5)
    }

    /// Whether the processor has used the entry.
    #[verifier::when_used_as_spec(spec_accessed)]
    pub fn accessed(&self) -> (flag: bool)
        ensures
            flag == self.spec_accessed(),
    {
        get_flag(self.bits, 5)
    }

    /// Sets or clears bit 5. Every other field keeps its value.
    pub fn set_accessed(&mut self, accessed: bool)
        ensures
            final(self)@ == with_field(old(self)@, 5, 1, flag_word(accessed)),
            final(self).spec_accessed() == accessed,
            only_field_changed(old(self)@, final(self)@, 5, 1),
    {
        self.bits = set_flag(self.bits, 5, accessed);
    }

    /// Whether the entry maps a huge page instead of referring to a table. Bit 7.
    pub open spec fn spec_page_size(&self) -> bool {
        flag_of(self@, 7)
    }

    /// Whether the entry maps a huge page instead of referring to a table.
    #[verifier::when_used_as_spec(spec_page_size)]
    pub fn page_size(&self) -> (flag: bool)
        ensures
            flag == self.spec_page_size(),
    {
        get_flag(self.bits, 7)
    }

    /// Sets or clears bit 7. Every other field keeps its value.
    pub fn set_page_size(&mut self, page_size: bool)
        ensures
            final(self)@ == with_field(old(self)@, 7, 1, flag_word(page_size)),
            final(self).spec_page_size() == page_size,
            only_field_changed(old(self)@, final(self)@, 7, 1),
    {
        self.bits = set_flag(self.bits, 7, page_size);
    }

    /// Whether instruction fetches are forbidden through the entry. Bit 63.
    pub open spec fn spec_execute_disable(&self) -> bool {
        flag_of(self@, 63)
    }

    /// Whether instruction fetches are forbidden through the entry.
    #[verifier::when_used_as_spec(spec_execute_disable)]
    pub fn execute_disable(&self) -> (flag: bool)
        ensures
            flag == self.spec_execute_disable(),
    {
        get_flag(self.bits, 63)
    }

    /// Sets or clears bit 63. Every other field keeps its value.
    pub fn set_execute_disable(&mut self, execute_disable: bool)
        ensures
            final(self)@ == with_field(old(self)@, 63, 1, flag_word(execute_disable)),
            final(self).spec_execute_disable() == execute_disable,
            only_field_changed(old(self)@, final(self)@, 63, 1),
    {
        self.bits = set_flag(self.bits, 63, execute_disable);
    }

    /// The number of the 1 GiB page: bits 30 to 51.
    pub open spec fn spec_internal_addr(&self) -> u64 {
        field_of(self@, 30, 22)
    }

    /// The number of the 1 GiB page.
    #[verifier::when_used_as_spec(spec_internal_addr)]
    pub fn internal_addr(&self) -> (number: u64)
        ensures
            number == self.spec_internal_addr(),
            number <= 0x3F_FFFF,
    {
        proof {
            lemma_low_mask_values();
        }
        get_field(self.bits, 30, 22)
    }

    /// Replaces the number of the 1 GiB page. Every other field keeps its value.
    pub fn set_internal_addr(&mut self, number: u64)
        requires
            number <= 0x3F_FFFF,
        ensures
            final(self)@ == with_field(old(self)@, 30, 22, number),
            final(self).spec_internal_addr() == number,
            only_field_changed(old(self)@, final(self)@, 30, 22),
    {
        proof {
            lemma_low_mask_values();
        }
        self.bits = set_field(self.bits, 30, 22, number);
    }

    /// The physical address that the entry holds: the page number times
    /// 1 GiB.
    pub open spec fn spec_address(&self) -> u64 {
        (self.spec_internal_addr() * 0x4000_0000) as u64
    }

    /// The physical address of the 1 GiB page that the entry maps.
    pub fn address(&self, layout: &MemoryLayout) -> (physical_address: PhysicalAddress)
        requires
            PhysicalAddress::in_range(self.spec_address(), *layout),
        ensures
            physical_address@ == self.spec_address(),
    {
        let number = self.internal_addr();
        proof {
            lemma_number_shifts(number);
        }
        PhysicalAddress::new(number << 30, layout).unwrap()
    }
}

/// An entry of a page directory pointer table that refers to a page
/// directory.
#[derive(Clone, Copy, Debug)]
pub struct PdptEntryPageDirectory {
    bits: u64,
}

impl View for PdptEntryPageDirectory {
    type V = u64;

    closed spec fn view(&self) -> u64 {
        self.bits
    }
}

impl PdptEntryPageDirectory {
    /// The entry with every bit clear.
    pub fn new() -> (entry: Self)
        ensures
            entry@ == 0,
    {
        PdptEntryPageDirectory { bits: 0 }
    }

    /// The entry that the word `bits` stands for.
    pub fn from_bits(bits: u64) -> (entry: Self)
        ensures
            entry@ == bits,
    {
        PdptEntryPageDirectory { bits }
    }

    /// The word that stands for the entry.
    pub fn into_bits(&self) -> (bits: u64)
        ensures
            bits == self@,
    {
        self.bits
    }

    /// Whether the entry is in use. Bit 0.
    pub open spec fn spec_present(&self) -> bool {
        flag_of(self@, 0)
    }

    /// Whether the entry is in use.
    #[verifier::when_used_as_spec(spec_present)]
    pub fn present(&self) -> (flag: bool)
        ensures
            flag == self.spec_present(),
    {
        get_flag(self.bits, 0)
    }

    /// Sets or clears bit 0. Every other field keeps its value.
    pub fn set_present(&mut self, present: bool)
        ensures
            final(self)@ == with_field(old(self)@, 0, 1, flag_word(present)),
            final(self).spec_present() == present,
            only_field_changed(old(self)@, final(self)@, 0, 1),
    {
        self.bits = set_flag(self.bits, 0, present);
    }

    /// Whether writes are allowed through the entry. Bit 1.
    pub open spec fn spec_read_write(&self) -> bool {
        flag_of(self@, 1)
    }

    /// Whether writes are allowed through the entry.
    #[verifier::when_used_as_spec(spec_read_write)]
    pub fn read_write(&self) -> (flag: bool)
        ensures
            flag == self.spec_read_write(),
    {
        get_flag(self.bits, 1)
    }

    /// Sets or clears bit 1. Every other field keeps its value.
    pub fn set_read_write(&mut self, read_write: bool)
        ensures
            final(self)@ == with_field(old(self)@, 1, 1, flag_word(read_write)),
            final(self).spec_read_write() == read_write,
            only_field_changed(old(self)@, final(self)@, 1, 1),
    {
        self.bits = set_flag(self.bits, 1, read_write);
    }

    /// Whether user-mode accesses are allowed through the entry. Bit 2.
    pub open spec fn spec_user_supervisor(&self) -> bool {
        flag_of(self@, 2)
    }

    /// Whether user-mode accesses are allowed through the entry.
    #[verifier::when_used_as_spec(spec_user_supervisor)]
    pub fn user_supervisor(&self) -> (flag: bool)
        ensures
            flag == self.spec_user_supervisor(),
    {
        get_flag(self.bits, 2)
    }

    /// Sets or clears bit 2. Every other field keeps its value.
    pub fn set_user_supervisor(&mut self, user_supervisor: bool)
        ensures
            final(self)@ == with_field(old(self)@, 2, 1, flag_word(user_supervisor)),
            final(self).spec_user_supervisor() == user_supervisor,
            only_field_changed(old(self)@, final(self)@, 2, 1),
    {
        self.bits = set_flag(self.bits, 2, user_supervisor);
    }

    /// Whether the processor has used the entry. Bit 5.
    pub open spec fn spec_accessed(&self) -> bool {
        flag_of(self@, 5)
    }

    /// Whether the processor has used the entry.
    #[verifier::when_used_as_spec(spec_accessed)]
    pub fn accessed(&self) -> (flag: bool)
        ensures
            flag == self.spec_accessed(),
    {
        get_flag(self.bits, 5)
    }

    /// Sets or clears bit 5. Every other field keeps its value.
    pub fn set_accessed(&mut self, accessed: bool)
        ensures
            final(self)@ == with_field(old(self)@, 5, 1, flag_word(accessed)),
            final(self).spec_accessed() == accessed,
            only_field_changed(old(self)@, final(self)@, 5, 1),
    {
        self.bits = set_flag(self.bits, 5, accessed);
    }

    /// Whether the entry maps a huge page instead of referring to a table. Bit 7.
    pub open spec fn spec_page_size(&self) -> bool {
        flag_of(self@, 7)
    }

    /// Whether the entry maps a huge page instead of referring to a table.
    #[verifier::when_used_as_spec(spec_page_size)]
    pub fn page_size(&self) -> (flag: bool)
        ensures
            flag == self.spec_page_size(),
    {
        get_flag(self.bits, 7)
    }

    /// Sets or clears bit 7. Every other field keeps its value.
    pub fn set_page_size(&mut self, page_size: bool)
        ensures
            final(self)@ == with_field(old(self)@, 7, 1, flag_word(page_size)),
            final(self).spec_page_size() == page_size,
            only_field_changed(old(self)@, final(self)@, 7, 1),
    {
        self.bits = set_flag(self.bits, 7, page_size);
    }

    /// Whether instruction fetches are forbidden through the entry. Bit 63.
    pub open spec fn spec_execute_disable(&self) -> bool {
        flag_of(self@, 63)
    }

    /// Whether instruction fetches are forbidden through the entry.
    #[verifier::when_used_as_spec(spec_execute_disable)]
    pub fn execute_disable(&self) -> (flag: bool)
        ensures
            flag == self.spec_execute_disable(),
    {
        get_flag(self.bits, 63)
    }

    /// Sets or clears bit 63. Every other field keeps its value.
    pub fn set_execute_disable(&mut self, execute_disable: bool)
        ensures
            final(self)@ == with_field(old(self)@, 63, 1, flag_word(execute_disable)),
            final(self).spec_execute_disable() == execute_disable,
            only_field_changed(old(self)@, final(self)@, 63, 1),
    {
        self.bits = set_flag(self.bits, 63, execute_disable);
    }

    /// The number of the frame that holds the page directory: bits 12 to 51.
    pub open spec fn spec_internal_addr(&self) -> u64 {
        field_of(self@, 12, 40)
    }

    /// The number of the frame that holds the page directory.
    #[verifier::when_used_as_spec(spec_internal_addr)]
    pub fn internal_addr(&self) -> (number: u64)
        ensures
            number == self.spec_internal_addr(),
            number <= 0xFF_FFFF_FFFF,
    {
        proof {
            lemma_low_mask_values();
        }
        get_field(self.bits, 12, 40)
    }

    /// Replaces the number of the frame that holds the page directory. Every other field keeps its
    /// value.
    pub fn set_internal_addr(&mut self, number: u64)
        requires
            number <= 0xFF_FFFF_FFFF,
        ensures
            final(self)@ == with_field(old(self)@, 12, 40, number),
            final(self).spec_internal_addr() == number,
            only_field_changed(old(self)@, final(self)@, 12, 40),
    {
        proof {
            lemma_low_mask_values();
        }
        self.bits = set_field(self.bits, 12, 40, number);
    }

    /// The physical address that the entry holds: the frame number times
    /// the page size.
    pub open spec fn spec_address(&self) -> u64 {
        (self.spec_internal_addr() * 4096) as u64
    }

    /// The physical address of the page directory that the entry refers to.
    pub fn address(&self, layout: &MemoryLayout) -> (physical_address: PhysicalAddress)
        requires
            PhysicalAddress::in_range(self.spec_address(), *layout),
        ensures
            physical_address@ == self.spec_address(),
    {
        let number = self.internal_addr();
        proof {
            lemma_number_shifts(number);
        }
        PhysicalAddress::new(number << 12, layout).unwrap()
    }

    /// Makes the entry refer to `physical_address`, which must be the start of a page. Every field
    /// but the
    /// address keeps its value.
    pub fn set_address(&mut self, physical_address: PhysicalAddress)
        requires
            physical_address.is_frame_aligned(),
            physical_address@ < PHYSICAL_ADDRESS_LIMIT,
        ensures
            final(self).spec_address() == physical_address@ - physical_address@ % 4096,
            final(self)@ == with_field(old(self)@, 12, 40, physical_address@ / 4096),
            only_field_changed(old(self)@, final(self)@, 12, 40),
    {
        let address = physical_address.get_address();
        proof {
            lemma_number_shifts(address);
        }
        self.set_internal_addr(address >> 12);
    }

    /// The direct-mapped virtual address of the page directory that the entry
    /// refers to.
    pub fn page_directory(&self, layout: &MemoryLayout) -> (pointer: u64)
        requires
            layout.wf(),
            table_reachable(self.spec_address(), *layout),
        ensures
            pointer == self.spec_address() + layout.direct_map_start,
    {
        let direct = DirectMappedAddress::from_physical(self.address(layout));
        direct.as_pointer_aligned(PAGE_SIZE, PAGE_SIZE, layout).unwrap()
    }

    /// Makes the entry refer to the page directory at the direct-mapped virtual
    /// address `pointer`. Every field but the address keeps its value.
    pub fn set_page_directory(&mut self, pointer: u64, layout: &MemoryLayout)
        requires
            layout.wf(),
            table_pointer(pointer, *layout),
            (pointer - layout.direct_map_start) % 4096 == 0,
        ensures
            final(self).spec_address() == pointer - layout.direct_map_start,
            only_field_changed(old(self)@, final(self)@, 12, 40),
    {
        let direct_mapped_address = DirectMappedAddress::from_virtual(
            VirtualAddress::create(pointer).unwrap(),
            layout,
        );
        self.set_address(direct_mapped_address.get_physical_address())
    }
}

/// What an entry of a page directory pointer table is, told apart by its
/// page-size bit.
#[derive(Debug)]
pub enum PdptEntry {
    PageDirectory(PdptEntryPageDirectory),
    HugePage(PdptEntryHugePage),
}

/// An entry of a page directory pointer table before it is known which of
/// the two kinds it is.
#[derive(Clone, Copy, Debug)]
pub struct PdptEntryUnion {
    bits: u64,
}

impl View for PdptEntryUnion {
    type V = u64;

    closed spec fn view(&self) -> u64 {
        self.bits
    }
}

impl PdptEntryUnion {
    /// The entry that the word `x` stands for.
    pub fn new(x: u64) -> (entry: Self)
        ensures
            entry@ == x,
    {
        Self { bits: x }
    }

    /// The undecided form of an entry that refers to a page directory.
    pub fn from_page_directory(entry: PdptEntryPageDirectory) -> (result: Self)
        ensures
            result@ == entry@,
    {
        Self { bits: entry.into_bits() }
    }

    /// The undecided form of an entry that maps a huge page.
    pub fn from_huge_page(entry: PdptEntryHugePage) -> (result: Self)
        ensures
            result@ == entry@,
    {
        Self { bits: entry.into_bits() }
    }

    /// Whether the page-size bit, bit 7, is set.
    pub open spec fn spec_huge_page(&self) -> bool {
        flag_of(self@, 7)
    }

    /// Whether the entry is in use. Bit 0.
    pub open spec fn spec_present(&self) -> bool {
        flag_of(self@, 0)
    }

    /// Whether the entry is in use and refers to a page directory.
    pub open spec fn refers_to_table(&self) -> bool {
        self.spec_present() && !self.spec_huge_page()
    }

    /// The physical address that the entry holds if it refers to a page
    /// directory.
    pub open spec fn table_address(&self) -> u64 {
        (field_of(self@, 12, 40) * 4096) as u64
    }

    /// Decides which kind of entry this is: a huge page if the page-size
    /// bit is set, a reference to a page directory if not. The word is
    /// carried over as it is.
    pub fn get_entry(&self) -> (entry: PdptEntry)
        ensures
            match entry {
                PdptEntry::HugePage(e) => self.spec_huge_page() && e@ == self@,
                PdptEntry::PageDirectory(e) => !self.spec_huge_page() && e@ == self@,
            },
    {
        if get_flag(self.bits, 7) {
            PdptEntry::HugePage(PdptEntryHugePage::from_bits(self.bits))
        } else {
            PdptEntry::PageDirectory(PdptEntryPageDirectory::from_bits(self.bits))
        }
    }

    /// Whether the entry is in use.
    #[verifier::when_used_as_spec(spec_present)]
    pub fn present(&self) -> (flag: bool)
        ensures
            flag == self.spec_present(),
    {
        get_flag(self.bits, 0)
    }
}

/// An entry of a page directory that maps a 2 MiB page.
#[derive(Clone, Copy, Debug)]
pub struct PageDirectoryEntryHugePage {
    bits: u64,
}

impl View for PageDirectoryEntryHugePage {
    type V = u64;

    closed spec fn view(&self) -> u64 {
        self.bits
    }
}

impl PageDirectoryEntryHugePage {
    /// The entry with every bit clear.
    pub fn new() -> (entry: Self)
        ensures
            entry@ == 0,
    {
        PageDirectoryEntryHugePage { bits: 0 }
    }

    /// The entry that the word `bits` stands for.
    pub fn from_bits(bits: u64) -> (entry: Self)
        ensures
            entry@ == bits,
    {
        PageDirectoryEntryHugePage { bits }
    }

    /// The word that stands for the entry.
    pub fn into_bits(&self) -> (bits: u64)
        ensures
            bits == self@,
    {
        self.bits
    }

    /// Whether the entry is in use. Bit 0.
    pub open spec fn spec_present(&self) -> bool {
        flag_of(self@, 0)
    }

    /// Whether the entry is in use.
    #[verifier::when_used_as_spec(spec_present)]
    pub fn present(&self) -> (flag: bool)
        ensures
            flag == self.spec_present(),
    {
        get_flag(self.bits, 0)
    }

    /// Sets or clears bit 0. Every other field keeps its value.
    pub fn set_present(&mut self, present: bool)
        ensures
            final(self)@ == with_field(old(self)@, 0, 1, flag_word(present)),
            final(self).spec_present() == present,
            only_field_changed(old(self)@, final(self)@, 0, 1),
    {
        self.bits = set_flag(self.bits, 0, present);
    }

    /// Whether writes are allowed through the entry. Bit 1.
    pub open spec fn spec_read_write(&self) -> bool {
        flag_of(self@, 1)
    }

    /// Whether writes are allowed through the entry.
    #[verifier::when_used_as_spec(spec_read_write)]
    pub fn read_write(&self) -> (flag: bool)
        ensures
            flag == self.spec_read_write(),
    {
        get_flag(self.bits, 1)
    }

    /// Sets or clears bit 1. Every other field keeps its value.
    pub fn set_read_write(&mut self, read_write: bool)
        ensures
            final(self)@ == with_field(old(self)@, 1, 1, flag_word(read_write)),
            final(self).spec_read_write() == read_write,
            only_field_changed(old(self)@, final(self)@, 1, 1),
    {
        self.bits = set_flag(self.bits, 1, read_write);
    }

    /// Whether user-mode accesses are allowed through the entry. Bit 2.
    pub open spec fn spec_user_supervisor(&self) -> bool {
        flag_of(self@, 2)
    }

    /// Whether user-mode accesses are allowed through the entry.
    #[verifier::when_used_as_spec(spec_user_supervisor)]
    pub fn user_supervisor(&self) -> (flag: bool)
        ensures
            flag == self.spec_user_supervisor(),
    {
        get_flag(self.bits, 2)
    }

    /// Sets or clears bit 2. Every other field keeps its value.
    pub fn set_user_supervisor(&mut self, user_supervisor: bool)
        ensures
            final(self)@ == with_field(old(self)@, 2, 1, flag_word(user_supervisor)),
            final(self).spec_user_supervisor() == user_supervisor,
            only_field_changed(old(self)@, final(self)@, 2, 1),
    {
        self.bits = set_flag(self.bits, 2, user_supervisor);
    }

    /// Whether the processor has used the entry. Bit 5.
    pub open spec fn spec_accessed(&self) -> bool {
        flag_of(self@, 5)
    }

    /// Whether the processor has used the entry.
    #[verifier::when_used_as_spec(spec_accessed)]
    pub fn accessed(&self) -> (flag: bool)
        ensures
            flag == self.spec_accessed(),
    {
        get_flag(self.bits, 5)
    }

    /// Sets or clears bit 5. Every other field keeps its value.
    pub fn set_accessed(&mut self, accessed: bool)
        ensures
            final(self)@ == with_field(old(self)@, 5, 1, flag_word(accessed)),
            final(self).spec_accessed() == accessed,
            only_field_changed(old(self)@, final(self)@, 5, 1),
    {
        self.bits = set_flag(self.bits, 5, accessed);
    }

    /// Whether the entry maps a huge page instead of referring to a table. Bit 7.
    pub open spec fn spec_page_size(&self) -> bool {
        flag_of(self@, 7)
    }

    /// Whether the entry maps a huge page instead of referring to a table.
    #[verifier::when_used_as_spec(spec_page_size)]
    pub fn page_size(&self) -> (flag: bool)
        ensures
            flag == self.spec_page_size(),
    {
        get_flag(self.bits, 7)
    }

    /// Sets or clears bit 7. Every other field keeps its value.
    pub fn set_page_size(&mut self, page_size: bool)
        ensures
            final(self)@ == with_field(old(self)@, 7, 1, flag_word(page_size)),
            final(self).spec_page_size() == page_size,
            only_field_changed(old(self)@, final(self)@, 7, 1),
    {
        self.bits = set_flag(self.bits, 7, page_size);
    }

    /// Whether instruction fetches are forbidden through the entry. Bit 63.
    pub open spec fn spec_execute_disable(&self) -> bool {
        flag_of(self@, 63)
    }

    /// Whether instruction fetches are forbidden through the entry.
    #[verifier::when_used_as_spec(spec_execute_disable)]
    pub fn execute_disable(&self) -> (flag: bool)
        ensures
            flag == self.spec_execute_disable(),
    {
        get_flag(self.bits, 63)
    }

    /// Sets or clears bit 63. Every other field keeps its value.
    pub fn set_execute_disable(&mut self, execute_disable: bool)
        ensures
            final(self)@ == with_field(old(self)@, 63, 1, flag_word(execute_disable)),
            final(self).spec_execute_disable() == execute_disable,
            only_field_changed(old(self)@, final(self)@, 63, 1),
    {
        self.bits = set_flag(self.bits, 63, execute_disable);
    }

    /// The number of the 2 MiB page: bits 21 to 51.
    pub open spec fn spec_internal_addr(&self) -> u64 {
        field_of(self@, 21, 31)
    }

    /// The number of the 2 MiB page.
    #[verifier::when_used_as_spec(spec_internal_addr)]
    pub fn internal_addr(&self) -> (number: u64)
        ensures
            number == self.spec_internal_addr(),
            number <= 0x7FFF_FFFF,
    {
        proof {
            lemma_low_mask_values();
        }
        get_field(self.bits, 21, 31)
    }

    /// Replaces the number of the 2 MiB page. Every other field keeps its value.
    pub fn set_internal_addr(&mut self, number: u64)
        requires
            number <= 0x7FFF_FFFF,
        ensures
            final(self)@ == with_field(old(self)@, 21, 31, number),
            final(self).spec_internal_addr() == number,
            only_field_changed(old(self)@, final(self)@, 21, 31),
    {
        proof {
            lemma_low_mask_values();
        }
        self.bits = set_field(self.bits, 21, 31, number);
    }

    /// The physical address that the entry holds: the page number times
    /// 2 MiB.
    pub open spec fn spec_address(&self) -> u64 {
        (self.spec_internal_addr() * 0x20_0000) as u64
    }

    /// The physical address of the 2 MiB page that the entry maps.
    #[verifier::when_used_as_spec(spec_address)]
    pub fn address(&self) -> (address: u64)
        ensures
            address == self.spec_address(),
    {
        let number = self.internal_addr();
        proof {
            lemma_number_shifts(number);
        }
        number << 21
    }
}

/// An entry of a page directory that refers to a page table.
#[derive(Clone, Copy, Debug)]
pub struct PageDirectoryEntryPageTable {
    bits: u64,
}

impl View for PageDirectoryEntryPageTable {
    type V = u64;

    closed spec fn view(&self) -> u64 {
        self.bits
    }
}

impl PageDirectoryEntryPageTable {
    /// The entry with every bit clear.
    pub fn new() -> (entry: Self)
        ensures
            entry@ == 0,
    {
        PageDirectoryEntryPageTable { bits: 0 }
    }

    /// The entry that the word `bits` stands for.
    pub fn from_bits(bits: u64) -> (entry: Self)
        ensures
            entry@ == bits,
    {
        PageDirectoryEntryPageTable { bits }
    }

    /// The word that stands for the entry.
    pub fn into_bits(&self) -> (bits: u64)
        ensures
            bits == self@,
    {
        self.bits
    }

    /// Whether the entry is in use. Bit 0.
    pub open spec fn spec_present(&self) -> bool {
        flag_of(self@, 0)
    }

    /// Whether the entry is in use.
    #[verifier::when_used_as_spec(spec_present)]
    pub fn present(&self) -> (flag: bool)
        ensures
            flag == self.spec_present(),
    {
        get_flag(self.bits, 0)
    }

    /// Sets or clears bit 0. Every other field keeps its value.
    pub fn set_present(&mut self, present: bool)
        ensures
            final(self)@ == with_field(old(self)@, 0, 1, flag_word(present)),
            final(self).spec_present() == present,
            only_field_changed(old(self)@, final(self)@, 0, 1),
    {
        self.bits = set_flag(self.bits, 0, present);
    }

    /// Whether writes are allowed through the entry. Bit 1.
    pub open spec fn spec_read_write(&self) -> bool {
        flag_of(self@, 1)
    }

    /// Whether writes are allowed through the entry.
    #[verifier::when_used_as_spec(spec_read_write)]
    pub fn read_write(&self) -> (flag: bool)
        ensures
            flag == self.spec_read_write(),
    {
        get_flag(self.bits, 1)
    }

    /// Sets or clears bit 1. Every other field keeps its value.
    pub fn set_read_write(&mut self, read_write: bool)
        ensures
            final(self)@ == with_field(old(self)@, 1, 1, flag_word(read_write)),
            final(self).spec_read_write() == read_write,
            only_field_changed(old(self)@, final(self)@, 1, 1),
    {
        self.bits = set_flag(self.bits, 1, read_write);
    }

    /// Whether user-mode accesses are allowed through the entry. Bit 2.
    pub open spec fn spec_user_supervisor(&self) -> bool {
        flag_of(self@, 2)
    }

    /// Whether user-mode accesses are allowed through the entry.
    #[verifier::when_used_as_spec(spec_user_supervisor)]
    pub fn user_supervisor(&self) -> (flag: bool)
        ensures
            flag == self.spec_user_supervisor(),
    {
        get_flag(self.bits, 2)
    }

    /// Sets or clears bit 2. Every other field keeps its value.
    pub fn set_user_supervisor(&mut self, user_supervisor: bool)
        ensures
            final(self)@ == with_field(old(self)@, 2, 1, flag_word(user_supervisor)),
            final(self).spec_user_supervisor() == user_supervisor,
            only_field_changed(old(self)@, final(self)@, 2, 1),
    {
        self.bits = set_flag(self.bits, 2, user_supervisor);
    }

    /// Whether the processor has used the entry. Bit 5.
    pub open spec fn spec_accessed(&self) -> bool {
        flag_of(self@, 5)
    }

    /// Whether the processor has used the entry.
    #[verifier::when_used_as_spec(spec_accessed)]
    pub fn accessed(&self) -> (flag: bool)
        ensures
            flag == self.spec_accessed(),
    {
        get_flag(self.bits, 5)
    }

    /// Sets or clears bit 5. Every other field keeps its value.
    pub fn set_accessed(&mut self, accessed: bool)
        ensures
            final(self)@ == with_field(old(self)@, 5, 1, flag_word(accessed)),
            final(self).spec_accessed() == accessed,
            only_field_changed(old(self)@, final(self)@, 5, 1),
    {
        self.bits = set_flag(self.bits, 5, accessed);
    }

    /// Whether the entry maps a huge page instead of referring to a table. Bit 7.
    pub open spec fn spec_page_size(&self) -> bool {
        flag_of(self@, 7)
    }

    /// Whether the entry maps a huge page instead of referring to a table.
    #[verifier::when_used_as_spec(spec_page_size)]
    pub fn page_size(&self) -> (flag: bool)
        ensures
            flag == self.spec_page_size(),
    {
        get_flag(self.bits, 7)
    }

    /// Sets or clears bit 7. Every other field keeps its value.
    pub fn set_page_size(&mut self, page_size: bool)
        ensures
            final(self)@ == with_field(old(self)@, 7, 1, flag_word(page_size)),
            final(self).spec_page_size() == page_size,
            only_field_changed(old(self)@, final(self)@, 7, 1),
    {
        self.bits = set_flag(self.bits, 7, page_size);
    }

    /// Whether instruction fetches are forbidden through the entry. Bit 63.
    pub open spec fn spec_execute_disable(&self) -> bool {
        flag_of(self@, 63)
    }

    /// Whether instruction fetches are forbidden through the entry.
    #[verifier::when_used_as_spec(spec_execute_disable)]
    pub fn execute_disable(&self) -> (flag: bool)
        ensures
            flag == self.spec_execute_disable(),
    {
        get_flag(self.bits, 63)
    }

    /// Sets or clears bit 63. Every other field keeps its value.
    pub fn set_execute_disable(&mut self, execute_disable: bool)
        ensures
            final(self)@ == with_field(old(self)@, 63, 1, flag_word(execute_disable)),
            final(self).spec_execute_disable() == execute_disable,
            only_field_changed(old(self)@, final(self)@, 63, 1),
    {
        self.bits = set_flag(self.bits, 63, execute_disable);
    }

    /// The number of the frame that holds the page table: bits 12 to 51.
    pub open spec fn spec_internal_addr(&self) -> u64 {
        field_of(self@, 12, 40)
    }

    /// The number of the frame that holds the page table.
    #[verifier::when_used_as_spec(spec_internal_addr)]
    pub fn internal_addr(&self) -> (number: u64)
        ensures
            number == self.spec_internal_addr(),
            number <= 0xFF_FFFF_FFFF,
    {
        proof {
            lemma_low_mask_values();
        }
        get_field(self.bits, 12, 40)
    }

    /// Replaces the number of the frame that holds the page table. Every other field keeps its
    /// value.
    pub fn set_internal_addr(&mut self, number: u64)
        requires
            number <= 0xFF_FFFF_FFFF,
        ensures
            final(self)@ == with_field(old(self)@, 12, 40, number),
            final(self).spec_internal_addr() == number,
            only_field_changed(old(self)@, final(self)@, 12, 40),
    {
        proof {
            lemma_low_mask_values();
        }
        self.bits = set_field(self.bits, 12, 40, number);
    }

    /// The physical address that the entry holds: the frame number times
    /// the page size.
    pub open spec fn spec_address(&self) -> u64 {
        (self.spec_internal_addr() * 4096) as u64
    }

    /// The physical address of the page table that the entry refers to.
    pub fn address(&self, layout: &MemoryLayout) -> (physical_address: PhysicalAddress)
        requires
            PhysicalAddress::in_range(self.spec_address(), *layout),
        ensures
            physical_address@ == self.spec_address(),
    {
        let number = self.internal_addr();
        proof {
            lemma_number_shifts(number);
        }
        PhysicalAddress::new(number << 12, layout).unwrap()
    }

    /// Makes the entry refer to `physical_address`, which must be the start of a page. Every field
    /// but the
    /// address keeps its value.
    pub fn set_address(&mut self, physical_address: PhysicalAddress)
        requires
            physical_address.is_frame_aligned(),
            physical_address@ < PHYSICAL_ADDRESS_LIMIT,
        ensures
            final(self).spec_address() == physical_address@ - physical_address@ % 4096,
            final(self)@ == with_field(old(self)@, 12, 40, physical_address@ / 4096),
            only_field_changed(old(self)@, final(self)@, 12, 40),
    {
        let address = physical_address.get_address();
        proof {
            lemma_number_shifts(address);
        }
        self.set_internal_addr(address >> 12);
    }

    /// The direct-mapped virtual address of the page table that the entry
    /// refers to.
    pub fn page_table(&self, layout: &MemoryLayout) -> (pointer: u64)
        requires
            layout.wf(),
            table_reachable(self.spec_address(), *layout),
        ensures
            pointer == self.spec_address() + layout.direct_map_start,
    {
        let direct = DirectMappedAddress::from_physical(self.address(layout));
        direct.as_pointer_aligned(PAGE_SIZE, PAGE_SIZE, layout).unwrap()
    }

    /// Makes the entry refer to the page table at the direct-mapped virtual
    /// address `pointer`. Every field but the address keeps its value.
    pub fn set_page_table(&mut self, pointer: u64, layout: &MemoryLayout)
        requires
            layout.wf(),
            table_pointer(pointer, *layout),
            (pointer - layout.direct_map_start) % 4096 == 0,
        ensures
            final(self).spec_address() == pointer - layout.direct_map_start,
            only_field_changed(old(self)@, final(self)@, 12, 40),
    {
        let direct_mapped_address = DirectMappedAddress::from_virtual(
            VirtualAddress::create(pointer).unwrap(),
            layout,
        );
        self.set_address(direct_mapped_address.get_physical_address())
    }
}

/// What an entry of a page directory is, told apart by its page-size bit.
#[derive(Debug)]
pub enum PageDirectoryEntry {
    PageTable(PageDirectoryEntryPageTable),
    HugePage(PageDirectoryEntryHugePage),
}

/// An entry of a page directory before it is known which of the two kinds
/// it is.
#[derive(Clone, Copy, Debug)]
pub struct PageDirectoryEntryUnion {
    bits: u64,
}

impl View for PageDirectoryEntryUnion {
    type V = u64;

    closed spec fn view(&self) -> u64 {
        self.bits
    }
}

impl PageDirectoryEntryUnion {
    /// The entry that the word `x` stands for.
    pub fn new(x: u64) -> (entry: Self)
        ensures
            entry@ == x,
    {
        Self { bits: x }
    }

    /// The undecided form of an entry that refers to a page table.
    pub fn from_page_table(entry: PageDirectoryEntryPageTable) -> (result: Self)
        ensures
            result@ == entry@,
    {
        Self { bits: entry.into_bits() }
    }

    /// The undecided form of an entry that maps a huge page.
    pub fn from_huge_page(entry: PageDirectoryEntryHugePage) -> (result: Self)
        ensures
            result@ == entry@,
    {
        Self { bits: entry.into_bits() }
    }

    /// Whether the page-size bit, bit 7, is set.
    pub open spec fn spec_huge_page(&self) -> bool {
        flag_of(self@, 7)
    }

    /// Whether the entry is in use. Bit 0.
    pub open spec fn spec_present(&self) -> bool {
        flag_of(self@, 0)
    }

    /// Whether the entry is in use and refers to a page table.
    pub open spec fn refers_to_table(&self) -> bool {
        self.spec_present() && !self.spec_huge_page()
    }

    /// The physical address that the entry holds if it refers to a page
    /// table.
    pub open spec fn table_address(&self) -> u64 {
        (field_of(self@, 12, 40) * 4096) as u64
    }

    /// Decides which kind of entry this is: a huge page if the page-size
    /// bit is set, a reference to a page table if not. The word is carried
    /// over as it is.
    pub fn get_entry(&self) -> (entry: PageDirectoryEntry)
        ensures
            match entry {
                PageDirectoryEntry::HugePage(e) => self.spec_huge_page() && e@ == self@,
                PageDirectoryEntry::PageTable(e) => !self.spec_huge_page() && e@ == self@,
            },
    {
        if get_flag(self.bits, 7) {
            PageDirectoryEntry::HugePage(PageDirectoryEntryHugePage::from_bits(self.bits))
        } else {
            PageDirectoryEntry::PageTable(PageDirectoryEntryPageTable::from_bits(self.bits))
        }
    }

    /// Whether the entry is in use.
    #[verifier::when_used_as_spec(spec_present)]
    pub fn present(&self) -> (flag: bool)
        ensures
            flag == self.spec_present(),
    {
        get_flag(self.bits, 0)
    }

    /// Whether the entry maps a huge page.
    #[verifier::when_used_as_spec(spec_huge_page)]
    pub fn huge_page(&self) -> (flag: bool)
        ensures
            flag == self.spec_huge_page(),
    {
        get_flag(self.bits, 7)
    }
}

/// An entry of a page table. It maps one 4 KiB page.
#[derive(Clone, Copy, Debug)]
pub struct PageTableEntry {
    bits: u64,
}

impl View for PageTableEntry {
    type V = u64;

    closed spec fn view(&self) -> u64 {
        self.bits
    }
}

impl PageTableEntry {
    /// The entry with every bit clear.
    pub fn new() -> (entry: Self)
        ensures
            entry@ == 0,
    {
        PageTableEntry { bits: 0 }
    }

    /// The entry that the word `bits` stands for.
    pub fn from_bits(bits: u64) -> (entry: Self)
        ensures
            entry@ == bits,
    {
        PageTableEntry { bits }
    }

    /// The word that stands for the entry.
    pub fn into_bits(&self) -> (bits: u64)
        ensures
            bits == self@,
    {
        self.bits
    }

    /// Whether the entry is in use. Bit 0.
    pub open spec fn spec_present(&self) -> bool {
        flag_of(self@, 0)
    }

    /// Whether the entry is in use.
    #[verifier::when_used_as_spec(spec_present)]
    pub fn present(&self) -> (flag: bool)
        ensures
            flag == self.spec_present(),
    {
        get_flag(self.bits, 0)
    }

    /// Sets or clears bit 0. Every other field keeps its value.
    pub fn set_present(&mut self, present: bool)
        ensures
            final(self)@ == with_field(old(self)@, 0, 1, flag_word(present)),
            final(self).spec_present() == present,
            only_field_changed(old(self)@, final(self)@, 0, 1),
    {
        self.bits = set_flag(self.bits, 0, present);
    }

    /// Whether writes are allowed through the entry. Bit 1.
    pub open spec fn spec_read_write(&self) -> bool {
        flag_of(self@, 1)
    }

    /// Whether writes are allowed through the entry.
    #[verifier::when_used_as_spec(spec_read_write)]
    pub fn read_write(&self) -> (flag: bool)
        ensures
            flag == self.spec_read_write(),
    {
        get_flag(self.bits, 1)
    }

    /// Sets or clears bit 1. Every other field keeps its value.
    pub fn set_read_write(&mut self, read_write: bool)
        ensures
            final(self)@ == with_field(old(self)@, 1, 1, flag_word(read_write)),
            final(self).spec_read_write() == read_write,
            only_field_changed(old(self)@, final(self)@, 1, 1),
    {
        self.bits = set_flag(self.bits, 1, read_write);
    }

    /// Whether user-mode accesses are allowed through the entry. Bit 2.
    pub open spec fn spec_user_supervisor(&self) -> bool {
        flag_of(self@, 2)
    }

    /// Whether user-mode accesses are allowed through the entry.
    #[verifier::when_used_as_spec(spec_user_supervisor)]
    pub fn user_supervisor(&self) -> (flag: bool)
        ensures
            flag == self.spec_user_supervisor(),
    {
        get_flag(self.bits, 2)
    }

    /// Sets or clears bit 2. Every other field keeps its value.
    pub fn set_user_supervisor(&mut self, user_supervisor: bool)
        ensures
            final(self)@ == with_field(old(self)@, 2, 1, flag_word(user_supervisor)),
            final(self).spec_user_supervisor() == user_supervisor,
            only_field_changed(old(self)@, final(self)@, 2, 1),
    {
        self.bits = set_flag(self.bits, 2, user_supervisor);
    }

    /// Whether the processor has used the entry. Bit 5.
    pub open spec fn spec_accessed(&self) -> bool {
        flag_of(self@, 5)
    }

    /// Whether the processor has used the entry.
    #[verifier::when_used_as_spec(spec_accessed)]
    pub fn accessed(&self) -> (flag: bool)
        ensures
            flag == self.spec_accessed(),
    {
        get_flag(self.bits, 5)
    }

    /// Sets or clears bit 5. Every other field keeps its value.
    pub fn set_accessed(&mut self, accessed: bool)
        ensures
            final(self)@ == with_field(old(self)@, 5, 1, flag_word(accessed)),
            final(self).spec_accessed() == accessed,
            only_field_changed(old(self)@, final(self)@, 5, 1),
    {
        self.bits = set_flag(self.bits, 5, accessed);
    }

    /// Whether instruction fetches are forbidden through the entry. Bit 63.
    pub open spec fn spec_execute_disable(&self) -> bool {
        flag_of(self@, 63)
    }

    /// Whether instruction fetches are forbidden through the entry.
    #[verifier::when_used_as_spec(spec_execute_disable)]
    pub fn execute_disable(&self) -> (flag: bool)
        ensures
            flag == self.spec_execute_disable(),
    {
        get_flag(self.bits, 63)
    }

    /// Sets or clears bit 63. Every other field keeps its value.
    pub fn set_execute_disable(&mut self, execute_disable: bool)
        ensures
            final(self)@ == with_field(old(self)@, 63, 1, flag_word(execute_disable)),
            final(self).spec_execute_disable() == execute_disable,
            only_field_changed(old(self)@, final(self)@, 63, 1),
    {
        self.bits = set_flag(self.bits, 63, execute_disable);
    }

    /// The number of the frame that the entry maps: bits 12 to 51.
    pub open spec fn spec_internal_addr(&self) -> u64 {
        field_of(self@, 12, 40)
    }

    /// The number of the frame that the entry maps.
    #[verifier::when_used_as_spec(spec_internal_addr)]
    pub fn internal_addr(&self) -> (number: u64)
        ensures
            number == self.spec_internal_addr(),
            number <= 0xFF_FFFF_FFFF,
    {
        proof {
            lemma_low_mask_values();
        }
        get_field(self.bits, 12, 40)
    }

    /// Replaces the number of the frame that the entry maps. Every other field keeps its value.
    pub fn set_internal_addr(&mut self, number: u64)
        requires
            number <= 0xFF_FFFF_FFFF,
        ensures
            final(self)@ == with_field(old(self)@, 12, 40, number),
            final(self).spec_internal_addr() == number,
            only_field_changed(old(self)@, final(self)@, 12, 40),
    {
        proof {
            lemma_low_mask_values();
        }
        self.bits = set_field(self.bits, 12, 40, number);
    }

    /// The physical address that the entry holds: the frame number times
    /// the page size.
    pub open spec fn spec_address(&self) -> u64 {
        (self.spec_internal_addr() * 4096) as u64
    }

    /// The physical address of the page that the entry refers to.
    pub fn address(&self, layout: &MemoryLayout) -> (physical_address: PhysicalAddress)
        requires
            PhysicalAddress::in_range(self.spec_address(), *layout),
        ensures
            physical_address@ == self.spec_address(),
    {
        let number = self.internal_addr();
        proof {
            lemma_number_shifts(number);
        }
        PhysicalAddress::new(number << 12, layout).unwrap()
    }

    /// Makes the entry refer to `physical_address`, which must be the start of a page. Every field
    /// but the
    /// address keeps its value.
    pub fn set_address(&mut self, physical_address: PhysicalAddress)
        requires
            physical_address.is_frame_aligned(),
            physical_address@ < PHYSICAL_ADDRESS_LIMIT,
        ensures
            final(self).spec_address() == physical_address@ - physical_address@ % 4096,
            final(self)@ == with_field(old(self)@, 12, 40, physical_address@ / 4096),
            only_field_changed(old(self)@, final(self)@, 12, 40),
    {
        let address = physical_address.get_address();
        proof {
            lemma_number_shifts(address);
        }
        self.set_internal_addr(address >> 12);
    }

    /// The frame that the entry maps.
    pub fn frame(&self, layout: &MemoryLayout) -> (frame: Frame)
        requires
            PhysicalAddress::in_range(self.spec_address(), *layout),
        ensures
            frame@ == self.spec_address(),
    {
        proof {
            lemma_low_mask_values();
            lemma_field_bound(self@, 12, 40);
        }
        Frame::from_starting_address(self.address(layout))
    }

    /// Makes the entry map `frame`. Every field but the address keeps its
    /// value.
    pub fn set_frame(&mut self, frame: Frame)
        requires
            frame@ < PHYSICAL_ADDRESS_LIMIT,
            frame@ % 4096 == 0,
        ensures
            final(self).spec_address() == frame@,
            final(self)@ == with_field(old(self)@, 12, 40, frame@ / 4096),
            only_field_changed(old(self)@, final(self)@, 12, 40),
    {
        self.set_address(frame.get_starting_address());
    }
}

} // verus!
