//! The four-level page-table hierarchy.
//!
//! A hierarchy is a tree of four kinds of tables. Each table owns one page
//! frame and has 512 entries; an entry of a table above the lowest level is
//! absent, refers to a table of the next level, or (in a page directory
//! pointer table and in a page directory) maps a huge page. A table owns the
//! tables that its entries refer to, so no table is ever shared between two
//! entries or two hierarchies.

use crate::bits::{
    field_of, flag_of, flag_word, lemma_field_untouched, lemma_field_written,
    lemma_low_mask_values, lemma_zero_word, only_field_changed, with_field,
};
use crate::memory::{MemoryLayout, PhysicalAddress, VirtualAddress};
use crate::pmm::{
    after_allocation, frame_in_memory, frames_of, lemma_allocation_shift,
    lemma_allocation_total_pages, lemma_pages_left, lemma_pages_mean_runs, lemma_taken_first,
    lemma_taken_join, lemma_taken_shift, next_allocation, nth_allocation, runs_after, runs_wf,
    taken_between, total_pages, Frame, FrameAllocator, FreeRun, MemoryMapAllocator,
};
use crate::x64::entry::{
    lemma_number_shifts, PageDirectoryEntry, PageDirectoryEntryHugePage,
    PageDirectoryEntryPageTable, PageDirectoryEntryUnion, PageTableEntry, PdptEntry,
    PdptEntryHugePage, PdptEntryPageDirectory, PdptEntryUnion, Pml4Entry, PHYSICAL_ADDRESS_LIMIT,
};
use vstd::prelude::*;

verus! {

/// What a virtual address resolves to when the hierarchy is walked: the
/// word of the entry at which the walk ends.
pub enum Translation {
    /// A 4 KiB page, mapped by an entry of a page table.
    Page(u64),
    /// A 2 MiB page, mapped by an entry of a page directory.
    HugePage2M(u64),
    /// A 1 GiB page, mapped by an entry of a page directory pointer table.
    HugePage1G(u64),
}

/// Whether the entry word `word` is present.
pub open spec fn word_present(word: u64) -> bool {
    flag_of(word, 0)
}

/// Whether the entry word `word` has its page-size bit set.
pub open spec fn word_huge(word: u64) -> bool {
    flag_of(word, 7)
}

/// Whether the entry word `word` is present and refers to a table of the
/// next level.
pub open spec fn word_refers_to_table(word: u64) -> bool {
    word_present(word) && !word_huge(word)
}

/// The physical address in the address field of the entry word `word`.
pub open spec fn word_address(word: u64) -> u64 {
    (field_of(word, 12, 40) * 4096) as u64
}

/// The word of the entry that refers to the table in the frame at
/// `address`: present, with every other flag clear.
pub open spec fn reference_word(address: u64) -> u64 {
    with_field(with_field(0, 12, 40, address / 4096), 0, 1, 1)
}

/// The word of the page-table entry that maps the frame at `address` with
/// the given permissions.
pub open spec fn leaf_word(address: u64, writable: bool, no_execute: bool) -> u64 {
    with_field(
        with_field(
            with_field(
                with_field(0, 12, 40, address / 4096),
                1,
                1,
                flag_word(writable),
            ),
            63,
            1,
            flag_word(no_execute),
        ),
        0,
        1,
        1,
    )
}

/// The word of an entry after a page below it was mapped: the word of
/// before if the entry was present, and if not, the word that refers to the
/// table that was created for it in the frame of the allocation `next`.
pub open spec fn installed_word(before: u64, next: Option<u64>) -> u64 {
    if word_present(before) {
        before
    } else {
        reference_word(next.unwrap())
    }
}

/// A reference word is present, is no huge page, and holds its address.
pub proof fn lemma_reference_word(address: u64)
    requires
        address % 4096 == 0,
        address < PHYSICAL_ADDRESS_LIMIT,
    ensures
        word_present(reference_word(address)),
        !word_huge(reference_word(address)),
        word_address(reference_word(address)) == address,
{
    lemma_low_mask_values();
    lemma_number_shifts(address);
    let number = address / 4096;
    let first = with_field(0, 12, 40, number);
    lemma_field_written(0, 12, 40, number);
    lemma_field_untouched(0, 12, 40, number, 7, 1);
    lemma_zero_word(7, 1);
    lemma_field_written(first, 0, 1, 1);
    lemma_field_untouched(first, 0, 1, 1, 12, 40);
    lemma_field_untouched(first, 0, 1, 1, 7, 1);
}

/// A leaf word is present and holds its address and its permissions.
pub proof fn lemma_leaf_word(address: u64, writable: bool, no_execute: bool)
    requires
        address % 4096 == 0,
        address < PHYSICAL_ADDRESS_LIMIT,
    ensures
        word_present(leaf_word(address, writable, no_execute)),
        word_address(leaf_word(address, writable, no_execute)) == address,
        flag_of(leaf_word(address, writable, no_execute), 1) == writable,
        flag_of(leaf_word(address, writable, no_execute), 63) == no_execute,
{
    lemma_low_mask_values();
    lemma_number_shifts(address);
    let number = address / 4096;
    let first = with_field(0, 12, 40, number);
    let second = with_field(first, 1, 1, flag_word(writable));
    let third = with_field(second, 63, 1, flag_word(no_execute));
    lemma_field_written(0, 12, 40, number);
    lemma_field_written(first, 1, 1, flag_word(writable));
    lemma_field_untouched(first, 1, 1, flag_word(writable), 12, 40);
    lemma_field_written(second, 63, 1, flag_word(no_execute));
    lemma_field_untouched(second, 63, 1, flag_word(no_execute), 12, 40);
    lemma_field_untouched(second, 63, 1, flag_word(no_execute), 1, 1);
    lemma_field_written(third, 0, 1, 1);
    lemma_field_untouched(third, 0, 1, 1, 12, 40);
    lemma_field_untouched(third, 0, 1, 1, 1, 1);
    lemma_field_untouched(third, 0, 1, 1, 63, 1);
}

/// The lowest level: each entry maps one 4 KiB page.
pub struct PageTable {
    entries: [PageTableEntry; 512],
    frame: Frame,
}

impl PageTable {
    /// The words of the 512 entries.
    pub closed spec fn words(&self) -> Seq<u64> {
        Seq::new(512, |i: int| self.entries@[i]@)
    }

    /// The physical address of the frame that holds the table.
    pub closed spec fn frame_address(&self) -> u64 {
        self.frame@
    }

    /// The table has 512 entries, lies in a frame of physical memory, and
    /// every present entry maps a frame of physical memory.
    pub open spec fn wf(&self, layout: MemoryLayout) -> bool {
        &&& self.words().len() == 512
        &&& frame_in_memory(self.frame_address(), layout)
        &&& forall|i: int|
            0 <= i < 512 && word_present(#[trigger] self.words()[i]) ==> frame_in_memory(
                word_address(self.words()[i]),
                layout,
            )
    }

    /// What entry `index` resolves to.
    pub open spec fn lookup(&self, index: int) -> Option<Translation> {
        if word_present(self.words()[index]) {
            Some(Translation::Page(self.words()[index]))
        } else {
            None
        }
    }

    /// Whether the table lies in the frame at `address`.
    pub open spec fn has_table(&self, address: u64) -> bool {
        address == self.frame_address()
    }

    /// The number of tables: one.
    pub open spec fn table_count(&self) -> nat {
        1
    }

    /// Creates an empty page table in a frame taken from `allocator`, which
    /// must not be exhausted.
    pub fn new(allocator: &mut MemoryMapAllocator) -> (table: Self)
        requires
            old(allocator).inv(),
            old(allocator)@.len() > 0,
        ensures
            final(allocator).inv(),
            final(allocator)@ == after_allocation(old(allocator)@),
            final(allocator).spec_layout() == old(allocator).spec_layout(),
            table.wf(old(allocator).spec_layout()),
            Some(table.frame_address()) == next_allocation(old(allocator)@),
            forall|i: int| 0 <= i < 512 ==> #[trigger] table.words()[i] == 0,
    {
        let frame = allocator.allocate().unwrap();
        let zero = PageTableEntry::new();
        let table = PageTable { entries: [zero;512], frame };
        proof {
            assert forall|i: int|
                0 <= i < 512 implies
                !word_present(#[trigger] table.words()[i]) by {
                lemma_zero_word(0, 1);
            }
        }
        table
    }

    /// Entry `index` of the table.
    pub fn entry(&self, index: usize) -> (entry: PageTableEntry)
        requires
            index < 512,
        ensures
            entry@ == self.words()[index as int],
    {
        self.entries[index]
    }

    /// The address of the frame that holds the table.
    pub fn frame_start(&self) -> (address: PhysicalAddress)
        ensures
            address@ == self.frame_address(),
    {
        self.frame.get_starting_address()
    }

    /// Maps the page of `virtual_address` that this table covers to `frame`
    /// with the given permissions. The entry must be absent: a page that is
    /// mapped already is never mapped anew.
    pub fn map(
        &mut self,
        frame: Frame,
        virtual_address: VirtualAddress,
        writable: bool,
        no_execute: bool,
        layout: &MemoryLayout,
    )
        requires
            old(self).wf(*layout),
            layout.wf(),
            frame.valid(*layout),
            old(self).lookup(virtual_address.page_table_index() as int) is None,
        ensures
            final(self).wf(*layout),
            final(self).frame_address() == old(self).frame_address(),
            final(self).words() == old(self).words().update(
                virtual_address.page_table_index() as int,
                leaf_word(frame@, writable, no_execute),
            ),
            final(self).lookup(virtual_address.page_table_index() as int) == Some(
                Translation::Page(leaf_word(frame@, writable, no_execute)),
            ),
            forall|i: int|
                0 <= i < 512 && i != virtual_address.page_table_index() ==> final(self).lookup(i)
                    == old(self).lookup(i),
    {
        let index = virtual_address.page_table_index();
        let ghost address = frame@;
        let mut page_table_entry = PageTableEntry::new();
        page_table_entry.set_frame(frame);
        page_table_entry.set_read_write(writable);
        page_table_entry.set_execute_disable(no_execute);
        page_table_entry.set_present(true);
        proof {
            lemma_leaf_word(address, writable, no_execute);
        }
        self.entries[index] = page_table_entry;
        assert(self.words() =~= old(self).words().update(
            index as int,
            leaf_word(address, writable, no_execute),
        ));
    }

    /// Copies the table into a frame taken from `allocator`, which must not
    /// be exhausted. The entries are carried over as they are, so the copy
    /// maps the same frames.
    pub fn copy(&self, allocator: &mut MemoryMapAllocator) -> (table: Self)
        requires
            old(allocator).inv(),
            self.wf(old(allocator).spec_layout()),
            total_pages(old(allocator)@) >= self.table_count(),
        ensures
            final(allocator).inv(),
            final(allocator)@ == runs_after(old(allocator)@, self.table_count()),
            final(allocator).spec_layout() == old(allocator).spec_layout(),
            table.wf(old(allocator).spec_layout()),
            Some(table.frame_address()) == next_allocation(old(allocator)@),
            table.words() == self.words(),
            forall|i: int| 0 <= i < 512 ==> table.lookup(i) == self.lookup(i),
            forall|address: u64|
                table.has_table(address) <==> taken_between(old(allocator)@, 0, self.table_count(),
                    address,
                ),
    {
        let ghost runs = allocator@;
        assert(runs_after(runs, 1) == after_allocation(runs_after(runs, 0)));
        let frame = allocator.allocate().unwrap();
        let table = PageTable { entries: self.entries, frame };
        assert(table.words() =~= self.words());
        proof {
            assert(nth_allocation(runs, 0) == Some(table.frame_address()));
        }
        table
    }
}

/// The second level from below: each entry refers to a page table or maps a
/// 2 MiB page.
pub struct PageDirectory {
    entries: [PageDirectoryEntryUnion; 512],
    frame: Frame,
    tables: Vec<Option<PageTable>>,
}

impl PageDirectory {
    /// The words of the 512 entries.
    pub closed spec fn words(&self) -> Seq<u64> {
        Seq::new(512, |i: int| self.entries@[i]@)
    }

    /// The physical address of the frame that holds the directory.
    pub closed spec fn frame_address(&self) -> u64 {
        self.frame@
    }

    /// The page tables that the directory owns, by the index of the entry
    /// that refers to each.
    pub closed spec fn tables(&self) -> Seq<Option<PageTable>> {
        self.tables@
    }

    /// An entry that refers to a page table owns a well-formed table in the
    /// frame that the entry names; any other entry owns nothing.
    pub open spec fn slot_wf(&self, i: int, layout: MemoryLayout) -> bool {
        if word_refers_to_table(self.words()[i]) {
            &&& self.tables()[i] is Some
            &&& self.tables()[i].unwrap().wf(layout)
            &&& self.tables()[i].unwrap().frame_address() == word_address(self.words()[i])
        } else {
            self.tables()[i] is None
        }
    }

    /// The directory has 512 entries, lies in a frame of physical memory,
    /// and each of its entries is consistent with what it owns.
    pub open spec fn wf(&self, layout: MemoryLayout) -> bool {
        &&& self.words().len() == 512
        &&& self.tables().len() == 512
        &&& frame_in_memory(self.frame_address(), layout)
        &&& forall|i: int| 0 <= i < 512 ==> #[trigger] self.slot_wf(i, layout)
    }

    /// What the walk through entry `directory_index` and then entry
    /// `table_index` of the page table resolves to.
    pub open spec fn lookup(&self, directory_index: int, table_index: int) -> Option<Translation> {
        let word = self.words()[directory_index];
        if !word_present(word) {
            None
        } else if word_huge(word) {
            Some(Translation::HugePage2M(word))
        } else {
            self.tables()[directory_index].unwrap().lookup(table_index)
        }
    }

    /// Whether the page table owned through entry `i` lies in the frame at
    /// `address`.
    pub open spec fn child_has_table(&self, i: int, address: u64) -> bool {
        self.tables()[i] is Some && self.tables()[i].unwrap().has_table(address)
    }

    /// Whether the directory or one of its page tables lies in the frame at
    /// `address`.
    pub open spec fn has_table(&self, address: u64) -> bool {
        address == self.frame_address() || exists|i: int|
            0 <= i < 512 && #[trigger] self.child_has_table(i, address)
    }

    /// The number of page tables owned through the first `count` entries.
    pub open spec fn tables_below(&self, count: int) -> nat
        decreases count,
    {
        if count <= 0 {
            0
        } else {
            self.tables_below(count - 1) + match self.tables()[count - 1] {
                Some(table) => table.table_count(),
                None => 0,
            }
        }
    }

    /// The number of tables: the directory and its page tables.
    pub open spec fn table_count(&self) -> nat {
        1 + self.tables_below(512)
    }

    /// The number of tables that mapping a page through entry
    /// `directory_index` has to create.
    pub open spec fn missing_tables(&self, directory_index: int) -> nat {
        if self.tables()[directory_index] is Some {
            0
        } else {
            1
        }
    }

    /// Creates an empty page directory in a frame taken from `allocator`,
    /// which must not be exhausted.
    pub fn new(allocator: &mut MemoryMapAllocator) -> (directory: Self)
        requires
            old(allocator).inv(),
            old(allocator)@.len() > 0,
        ensures
            final(allocator).inv(),
            final(allocator)@ == after_allocation(old(allocator)@),
            final(allocator).spec_layout() == old(allocator).spec_layout(),
            directory.wf(old(allocator).spec_layout()),
            Some(directory.frame_address()) == next_allocation(old(allocator)@),
            forall|i: int| 0 <= i < 512 ==> #[trigger] directory.words()[i] == 0,
            forall|i: int| 0 <= i < 512 ==> #[trigger] directory.tables()[i] is None,
    {
        let frame = allocator.allocate().unwrap();
        let zero = PageDirectoryEntryUnion::new(0u64);
        let mut tables: Vec<Option<PageTable>> = Vec::new();
        let mut i: usize = 0;
        while i < 512
            invariant
                i <= 512,
                tables@.len() == i,
                forall|k: int| 0 <= k < i ==> #[trigger] tables@[k] is None,
            decreases 512 - i,
        {
            tables.push(None);
            i += 1;
        }
        let directory = PageDirectory { entries: [zero;512], frame, tables };
        proof {
            lemma_zero_word(0, 1);
            assert forall|i: int| 0 <= i < 512 implies #[trigger] directory.slot_wf(
                i,
                old(allocator).spec_layout(),
            ) by {
                assert(directory.words()[i] == 0);
            }
        }
        directory
    }

    /// Entry `index` of the directory.
    pub fn entry(&self, index: usize) -> (entry: PageDirectoryEntryUnion)
        requires
            index < 512,
        ensures
            entry@ == self.words()[index as int],
    {
        self.entries[index]
    }

    /// The address of the frame that holds the directory.
    pub fn frame_start(&self) -> (address: PhysicalAddress)
        ensures
            address@ == self.frame_address(),
    {
        self.frame.get_starting_address()
    }

    /// Maps the page of `virtual_address` that this directory covers to
    /// `frame` with the given permissions. A page table that is missing on
    /// the way is created from a frame of `allocator`. The page must not be
    /// mapped yet, neither by a page table nor as part of a huge page.
    pub fn map(
        &mut self,
        allocator: &mut MemoryMapAllocator,
        frame: Frame,
        virtual_address: VirtualAddress,
        writable: bool,
        no_execute: bool,
    )
        requires
            old(allocator).inv(),
            old(self).wf(old(allocator).spec_layout()),
            frame.valid(old(allocator).spec_layout()),
            old(self).lookup(
                virtual_address.page_directory_index() as int,
                virtual_address.page_table_index() as int,
            ) is None,
            total_pages(old(allocator)@) >= old(self).missing_tables(
                virtual_address.page_directory_index() as int,
            ),
        ensures
            final(allocator).inv(),
            final(allocator).spec_layout() == old(allocator).spec_layout(),
            final(allocator)@ == runs_after(
                old(allocator)@,
                old(self).missing_tables(virtual_address.page_directory_index() as int),
            ),
            final(self).wf(old(allocator).spec_layout()),
            final(self).frame_address() == old(self).frame_address(),
            final(self).words() == old(self).words().update(
                virtual_address.page_directory_index() as int,
                installed_word(
                    old(self).words()[virtual_address.page_directory_index() as int],
                    next_allocation(old(allocator)@),
                ),
            ),
            final(self).lookup(
                virtual_address.page_directory_index() as int,
                virtual_address.page_table_index() as int,
            ) == Some(Translation::Page(leaf_word(frame@, writable, no_execute))),
            final(self).missing_tables(virtual_address.page_directory_index() as int) == 0,
            forall|i: int, j: int|
                0 <= i < 512 && 0 <= j < 512 && (i != virtual_address.page_directory_index() || j
                    != virtual_address.page_table_index()) ==> #[trigger] final(self).lookup(i, j)
                    == old(self).lookup(i, j),
            forall|address: u64|
                final(self).has_table(address) <==> old(self).has_table(address) || taken_between(
                    old(allocator)@,
                    0,
                    old(self).missing_tables(virtual_address.page_directory_index() as int),
                    address,
                ),
    {
        let index = virtual_address.page_directory_index();
        let layout = allocator.layout();
        let ghost runs = allocator@;
        let ghost missing = self.missing_tables(index as int);
        proof {
            virtual_address.lemma_fields();
        }
        assert(self.slot_wf(index as int, layout));
        if !self.entries[index].present() {
            assert(runs.len() > 0);
            let page_table = PageTable::new(allocator);
            let mut reference = PageDirectoryEntryPageTable::new();
            reference.set_address(page_table.frame_start());
            reference.set_present(true);
            proof {
                lemma_reference_word(page_table.frame_address());
                lemma_zero_word(0, 1);
                assert forall|j: int| 0 <= j < 512 implies page_table.lookup(j) is None by {
                    assert(page_table.words()[j] == 0);
                }
            }
            self.entries[index] = PageDirectoryEntryUnion::from_page_table(reference);
            self.tables[index] = Some(page_table);
            assert(self.words() =~= old(self).words().update(
                index as int,
                reference_word(page_table.frame_address()),
            ));
        }
        let ghost mid = *self;
        proof {
            lemma_taken_first(runs, 0);
            assert(mid.slot_wf(index as int, layout));
            assert forall|i: int| 0 <= i < 512 implies #[trigger] mid.slot_wf(i, layout) by {
                if i != index {
                    assert(old(self).slot_wf(i, layout));
                }
            }
            assert(forall|j: int| 0 <= j < 512 ==> mid.lookup(index as int, j) == old(self).lookup(
                index as int, j));
            assert(word_refers_to_table(mid.words()[index as int]));
            assert(mid.lookup(index as int, virtual_address.page_table_index() as int) is None);
            assert(mid.tables()[index as int].unwrap().lookup(
                virtual_address.page_table_index() as int,
            ) is None);
        }
        match &mut self.tables[index] {
            Some(page_table) => {
                page_table.map(frame, virtual_address, writable, no_execute, &layout);
            },
            None => {
                // An entry that refers to a table owns the table.
                assert(false);
            },
        }
        proof {
            assert forall|i: int| 0 <= i < 512 implies #[trigger] self.slot_wf(i, layout) by {
                assert(mid.slot_wf(i, layout));
            }
            assert(self.words() == mid.words());
            assert(self.words() =~= old(self).words().update(
                index as int,
                installed_word(old(self).words()[index as int], next_allocation(runs)),
            ));
            assert forall|i: int, j: int|
                0 <= i < 512 && 0 <= j < 512 && (i != index || j
                    != virtual_address.page_table_index()) implies #[trigger] self.lookup(i, j)
                == old(self).lookup(i, j) by {
                assert(mid.lookup(index as int, j) == old(self).lookup(index as int, j));
            }
            assert forall|address: u64|
                self.has_table(address)
                    <==> old(self).has_table(address) || taken_between(runs, 0, missing,
                    address,
                ) by {
                lemma_taken_first(runs, address);
                if self.has_table(address) && address != self.frame_address() {
                    let i = choose|i: int|
                        0 <= i < 512 && #[trigger] self.child_has_table(i, address);
                    if i != index {
                        assert(old(self).child_has_table(i, address));
                    } else if missing == 0 {
                        assert(old(self).child_has_table(i, address));
                    }
                }
                if old(self).has_table(address) && address != self.frame_address() {
                    let i = choose|i: int|
                        0 <= i < 512 && #[trigger] old(self).child_has_table(i, address);
                    assert(self.child_has_table(i, address));
                }
                if taken_between(runs, 0, missing, address) {
                    assert(self.child_has_table(index as int, address));
                }
            }
        }
    }
}

impl PageDirectory {
    /// Counting the page tables of more entries never gives less.
    pub proof fn lemma_tables_below(&self, fewer: int, more: int)
        requires
            fewer <= more,
        ensures
            self.tables_below(fewer) <= self.tables_below(more),
        decreases more - fewer,
    {
        if fewer < more {
            self.lemma_tables_below(fewer, more - 1);
        }
    }

    /// Whether `word` and `child` are the copy of entry `i` and of what it
    /// owns: the word differs from the entry at most in its address; if
    /// the entry refers to a page table, `child` is a well-formed copy of
    /// that table in the frame that the word names; if not, the word is the
    /// entry's word and there is no child.
    pub open spec fn slot_copied(
        &self,
        i: int,
        word: u64,
        child: Option<PageTable>,
        layout: MemoryLayout,
    ) -> bool {
        &&& only_field_changed(self.words()[i], word, 12, 40)
        &&& if word_refers_to_table(self.words()[i]) {
            &&& word_refers_to_table(word)
            &&& child is Some
            &&& self.tables()[i] is Some
            &&& child.unwrap().wf(layout)
            &&& child.unwrap().frame_address() == word_address(word)
            &&& page_tables_alike(child.unwrap(), self.tables()[i].unwrap())
        } else {
            word == self.words()[i] && child is None
        }
    }

    /// Copies the directory and every page table below it into frames taken
    /// from `allocator`, which must hold as many free pages as there are
    /// tables to copy. An entry that is absent or maps a huge page is
    /// carried over as it is; an entry that refers to a page table refers
    /// to the copy of that table in the copy of the directory, and is
    /// otherwise unchanged.
    pub fn copy(&self, allocator: &mut MemoryMapAllocator) -> (directory: Self)
        requires
            old(allocator).inv(),
            self.wf(old(allocator).spec_layout()),
            total_pages(old(allocator)@) >= self.table_count(),
        ensures
            final(allocator).inv(),
            final(allocator)@ == runs_after(old(allocator)@, self.table_count()),
            final(allocator).spec_layout() == old(allocator).spec_layout(),
            directory.wf(old(allocator).spec_layout()),
            Some(directory.frame_address()) == next_allocation(old(allocator)@),
            forall|i: int|
                0 <= i < 512 && word_refers_to_table(self.words()[i]) ==> nth_allocation(
                    old(allocator)@,
                    1 + self.tables_below(i),
                ) == Some(word_address(#[trigger] directory.words()[i])),
            directory.table_count() == self.table_count(),
            forall|i: int|
                0 <= i < 512 ==> #[trigger] directory.missing_tables(i) == self.missing_tables(i),
            forall|i: int, j: int|
                0 <= i < 512 && 0 <= j < 512 ==> #[trigger] directory.lookup(i, j) == self.lookup(
                    i,
                    j,
                ),
            forall|i: int|
                0 <= i < 512 ==> only_field_changed(
                    self.words()[i],
                    #[trigger] directory.words()[i],
                    12,
                    40,
                ),
            forall|i: int|
                0 <= i < 512 && !word_refers_to_table(self.words()[i])
                    ==> #[trigger] directory.words()[i] == self.words()[i],
            forall|address: u64|
                directory.has_table(address) <==> taken_between(
                    old(allocator)@,
                    0,
                    self.table_count(),
                    address,
                ),
    {
        let layout = allocator.layout();
        let ghost runs = allocator@;
        proof {
            lemma_pages_mean_runs(runs);
        }
        let frame = allocator.allocate().unwrap();
        let ghost own = frame@;
        let mut entries = self.entries;
        let mut tables: Vec<Option<PageTable>> = Vec::new();
        let mut i: usize = 0;
        proof {
            lemma_taken_first(runs, own);
            assert forall|address: u64| #[trigger]
                page_table_among(tables@, 0, address) <==> taken_between(runs, 1, 1, address) by {}
        }
        while i < 512
            invariant
                i <= 512,
                self.wf(layout),
                allocator.inv(),
                allocator.spec_layout() == layout,
                runs_wf(runs, layout),
                total_pages(runs) >= self.table_count(),
                allocator@ == runs_after(runs, 1 + self.tables_below(i as int)),
                tables@.len() == i,
                forall|k: int| i <= k < 512 ==> (#[trigger] entries@[k])@ == self.words()[k],
                forall|k: int|
                    0 <= k < i ==> #[trigger] self.slot_copied(k, entries@[k]@, tables@[k], layout),
                forall|k: int|
                    0 <= k < i && word_refers_to_table(self.words()[k]) ==> nth_allocation(
                        runs,
                        1 + self.tables_below(k),
                    ) == Some(word_address((#[trigger] entries@[k])@)),
                forall|address: u64|
                    #[trigger] page_table_among(tables@, i as int, address) <==> taken_between(
                        runs,
                        1,
                        1 + self.tables_below(i as int),
                        address,
                    ),
            decreases 512 - i,
        {
            let ghost done = 1 + self.tables_below(i as int);
            let ghost earlier = tables@;
            let ghost earlier_entries = entries@;
            assert(self.slot_wf(i as int, layout));
            assert(entries@[i as int]@ == self.words()[i as int]);
            proof {
                self.lemma_tables_below(i + 1, 512);
                lemma_pages_left(runs, layout, done);
            }
            match &self.tables[i] {
                Some(child) => {
                    let ghost count = child.table_count();
                    let copied = child.copy(allocator);
                    let mut reference = match entries[i].get_entry() {
                        PageDirectoryEntry::PageTable(reference) => reference,
                        PageDirectoryEntry::HugePage(_) => PageDirectoryEntryPageTable::new(),
                    };
                    assert(reference@ == self.words()[i as int]);
                    reference.set_address(copied.frame_start());
                    proof {
                        lemma_low_mask_values();
                        lemma_number_shifts(copied.frame_address());
                        lemma_allocation_shift(runs, done, count);
                        let unchanged_word = self.words()[i as int];
                        assert(only_field_changed(unchanged_word, reference@, 12, 40));
                        assert(field_of(reference@, 0, 1) == field_of(unchanged_word, 0, 1));
                        assert(field_of(reference@, 7, 1) == field_of(unchanged_word, 7, 1));
                        assert(word_refers_to_table(reference@));
                        assert(word_address(reference@) == copied.frame_address());
                        assert(page_tables_alike(copied, *child));
                        assert(self.slot_copied(i as int, reference@, Some(copied), layout));
                        lemma_allocation_shift(runs, done, 0);
                        assert(nth_allocation(runs, done) == Some(copied.frame_address()));
                        assert forall|address: u64| #[trigger]
                            page_table_among(earlier.push(Some(copied)), i + 1, address)
                                <==> taken_between(
                                runs,
                                1,
                                done + count,
                                address,
                            ) by {
                            lemma_page_table_pushed(earlier, Some(copied), runs, done, count, address);
                        }
                    }
                    entries[i] = PageDirectoryEntryUnion::from_page_table(reference);
                    tables.push(Some(copied));
                },
                None => {
                    proof {
                        assert(self.slot_copied(i as int, entries@[i as int]@, None, layout));
                        assert forall|address: u64| #[trigger]
                            page_table_among(earlier.push(None), i + 1, address) <==> taken_between(
                                runs,
                                1,
                                done,
                                address,
                            ) by {
                            lemma_page_table_pushed(earlier, None, runs, done, 0, address);
                        }
                    }
                    tables.push(None);
                },
            }
            proof {
                assert forall|k: int| i + 1 <= k < 512 implies (#[trigger] entries@[k])@
                    == self.words()[k] by {
                    assert(entries@[k] == earlier_entries[k]);
                }
                assert forall|k: int|
                    0 <= k < i + 1 && word_refers_to_table(self.words()[k]) implies
                    nth_allocation(
                    runs,
                    1 + self.tables_below(k),
                ) == Some(word_address((#[trigger] entries@[k])@)) by {
                    if k < i {
                        assert(entries@[k] == earlier_entries[k]);
                    }
                }
                assert forall|k: int| 0 <= k < i + 1 implies #[trigger] self.slot_copied(
                    k,
                    entries@[k]@,
                    tables@[k],
                    layout,
                ) by {
                    if k < i {
                        assert(entries@[k] == earlier_entries[k]);
                        assert(tables@[k] == earlier[k]);
                        assert(self.slot_copied(k, earlier_entries[k]@, earlier[k], layout));
                    }
                }
            }
            i += 1;
        }
        let directory = PageDirectory { entries, frame, tables: tables };
        proof {
            assert forall|k: int| 0 <= k < 512 implies #[trigger] directory.slot_wf(k, layout) by {
                assert(self.slot_copied(k, entries@[k]@, tables@[k], layout));
                assert(self.slot_wf(k, layout));
                assert(directory.words()[k] == entries@[k]@);
            }
            assert forall|k: int| 0 <= k < 512 implies #[trigger] directory.missing_tables(k)
                == self.missing_tables(k) by {
                assert(self.slot_copied(k, entries@[k]@, tables@[k], layout));
                assert(self.slot_wf(k, layout));
            }
            assert forall|k: int, j: int|
                0 <= k < 512 && 0 <= j < 512 implies
                #[trigger] directory.lookup(
                k,
                j,
            ) == self.lookup(k, j) by {
                assert(self.slot_copied(k, entries@[k]@, tables@[k], layout));
                assert(self.slot_wf(k, layout));
                assert(directory.words()[k] == entries@[k]@);
                assert(field_of(directory.words()[k], 0, 1) == field_of(self.words()[k], 0, 1));
                assert(field_of(directory.words()[k], 7, 1) == field_of(self.words()[k], 7, 1));
            }
            assert forall|k: int| 0 <= k < 512 implies only_field_changed(
                self.words()[k],
                #[trigger] directory.words()[k],
                12,
                40,
            ) by {
                assert(self.slot_copied(k, entries@[k]@, tables@[k], layout));
                assert(directory.words()[k] == entries@[k]@);
            }
            assert forall|k: int|
                0 <= k < 512 && !word_refers_to_table(self.words()[k]) implies
                    #[trigger] directory.words()[k]
                == self.words()[k] by {
                assert(self.slot_copied(k, entries@[k]@, tables@[k], layout));
                assert(directory.words()[k] == entries@[k]@);
            }
            assert forall|k: int|
                0 <= k < 512 implies
                (#[trigger] directory.tables()[k] is Some) == (
            self.tables()[k] is Some) by {
                assert(self.slot_copied(k, entries@[k]@, tables@[k], layout));
                assert(self.slot_wf(k, layout));
            }
            assert forall|k: int| 0 <= k < 512 && directory.tables()[k] is Some implies (
            #[trigger] directory.tables()[k]).unwrap().table_count()
                == self.tables()[k].unwrap().table_count() by {
                assert(self.slot_copied(k, entries@[k]@, tables@[k], layout));
                assert(self.slot_wf(k, layout));
            }
            assert forall|k: int|
                0 <= k < 512 && word_refers_to_table(self.words()[k]) implies
                nth_allocation(
                runs,
                1 + self.tables_below(k),
            ) == Some(word_address(#[trigger] directory.words()[k])) by {
                assert(directory.words()[k] == entries@[k]@);
            }
            directory.lemma_same_count(*self, 512);
            assert forall|address: u64|
                directory.has_table(address) <==> taken_between(
                    runs,
                    0,
                    self.table_count(),
                    address,
                ) by {
                lemma_taken_first(runs, address);
                lemma_taken_join(runs, 0, 1, self.table_count(), address);
                assert(page_table_among(tables@, 512, address) <==> taken_between(
                    runs,
                    1,
                    self.table_count(),
                    address,
                ));
                if exists|k: int| 0 <= k < 512 && #[trigger] directory.child_has_table(k, address) {
                    let k = choose|k: int|
                        0 <= k < 512 && #[trigger] directory.child_has_table(k, address);
                    assert(page_table_in(tables@, k, address));
                }
                if taken_between(runs, 1, self.table_count(), address) {
                    let k = choose|k: int|
                        0 <= k < 512 && #[trigger] page_table_in(tables@, k, address);
                    assert(directory.child_has_table(k, address));
                }
            }
        }
        directory
    }

    /// Two directories that own page tables through the same entries have
    /// the same number of tables.
    pub proof fn lemma_same_count(&self, other: Self, count: int)
        requires
            count <= 512,
            self.tables().len() == 512,
            other.tables().len() == 512,
            forall|k: int| 0 <= k < 512 ==> (#[trigger] self.tables()[k] is Some) == (
            other.tables()[k] is Some),
        ensures
            self.tables_below(count) == other.tables_below(count),
        decreases count,
    {
        if count > 0 {
            self.lemma_same_count(other, count - 1);
            assert((self.tables()[count - 1] is Some) == (other.tables()[count - 1] is Some));
        }
    }
}

/// Whether entry `i` of `tables` holds a page table that lies in the frame
/// at `address`.
pub open spec fn page_table_in(tables: Seq<Option<PageTable>>, i: int, address: u64) -> bool {
    tables[i] is Some && tables[i].unwrap().has_table(address)
}

/// Whether one of the first `count` entries of `tables` holds a page table
/// that lies in the frame at `address`.
pub open spec fn page_table_among(tables: Seq<Option<PageTable>>, count: int, address: u64) -> bool {
    exists|k: int| 0 <= k < count && #[trigger] page_table_in(tables, k, address)
}

/// The second level from above: each entry refers to a page directory or
/// maps a 1 GiB page.
pub struct Pdpt {
    entries: [PdptEntryUnion; 512],
    frame: Frame,
    directories: Vec<Option<PageDirectory>>,
}

/// Whether entry `i` of `directories` holds a page directory that has a
/// table in the frame at `address`.
pub open spec fn directory_in(directories: Seq<Option<PageDirectory>>, i: int, address: u64) -> bool {
    directories[i] is Some && directories[i].unwrap().has_table(address)
}

/// Whether one of the first `count` entries of `directories` holds a page
/// directory that has a table in the frame at `address`.
pub open spec fn directory_among(
    directories: Seq<Option<PageDirectory>>,
    count: int,
    address: u64,
) -> bool {
    exists|k: int| 0 <= k < count && #[trigger] directory_in(directories, k, address)
}

impl Pdpt {
    /// The words of the 512 entries.
    pub closed spec fn words(&self) -> Seq<u64> {
        Seq::new(512, |i: int| self.entries@[i]@)
    }

    /// The physical address of the frame that holds the table.
    pub closed spec fn frame_address(&self) -> u64 {
        self.frame@
    }

    /// The page directories that the table owns, by the index of the entry
    /// that refers to each.
    pub closed spec fn directories(&self) -> Seq<Option<PageDirectory>> {
        self.directories@
    }

    /// An entry that refers to a page directory owns a well-formed
    /// directory in the frame that the entry names; any other entry owns
    /// nothing.
    pub open spec fn slot_wf(&self, i: int, layout: MemoryLayout) -> bool {
        if word_refers_to_table(self.words()[i]) {
            &&& self.directories()[i] is Some
            &&& self.directories()[i].unwrap().wf(layout)
            &&& self.directories()[i].unwrap().frame_address() == word_address(self.words()[i])
        } else {
            self.directories()[i] is None
        }
    }

    /// The table has 512 entries, lies in a frame of physical memory, and
    /// each of its entries is consistent with what it owns.
    pub open spec fn wf(&self, layout: MemoryLayout) -> bool {
        &&& self.words().len() == 512
        &&& self.directories().len() == 512
        &&& frame_in_memory(self.frame_address(), layout)
        &&& forall|i: int| 0 <= i < 512 ==> #[trigger] self.slot_wf(i, layout)
    }

    /// What the walk through entry `pdpt_index` of this table, entry
    /// `directory_index` of the page directory and entry `table_index` of
    /// the page table resolves to.
    pub open spec fn lookup(&self, pdpt_index: int, directory_index: int, table_index: int) -> Option<
        Translation,
    > {
        let word = self.words()[pdpt_index];
        if !word_present(word) {
            None
        } else if word_huge(word) {
            Some(Translation::HugePage1G(word))
        } else {
            self.directories()[pdpt_index].unwrap().lookup(directory_index, table_index)
        }
    }

    /// Whether the page directory owned through entry `i` has a table in
    /// the frame at `address`.
    pub open spec fn child_has_table(&self, i: int, address: u64) -> bool {
        directory_in(self.directories(), i, address)
    }

    /// Whether this table or a table below it lies in the frame at
    /// `address`.
    pub open spec fn has_table(&self, address: u64) -> bool {
        address == self.frame_address() || exists|i: int|
            0 <= i < 512 && #[trigger] self.child_has_table(i, address)
    }

    /// The number of tables owned through the first `count` entries.
    pub open spec fn tables_below(&self, count: int) -> nat
        decreases count,
    {
        if count <= 0 {
            0
        } else {
            self.tables_below(count - 1) + match self.directories()[count - 1] {
                Some(directory) => directory.table_count(),
                None => 0,
            }
        }
    }

    /// The number of tables: this one and all below it.
    pub open spec fn table_count(&self) -> nat {
        1 + self.tables_below(512)
    }

    /// The number of tables that mapping a page through entry `pdpt_index`
    /// and entry `directory_index` of the page directory has to create.
    pub open spec fn missing_tables(&self, pdpt_index: int, directory_index: int) -> nat {
        match self.directories()[pdpt_index] {
            Some(directory) => directory.missing_tables(directory_index),
            None => 2,
        }
    }

    /// Counting the tables of more entries never gives less.
    pub proof fn lemma_tables_below(&self, fewer: int, more: int)
        requires
            fewer <= more,
        ensures
            self.tables_below(fewer) <= self.tables_below(more),
        decreases more - fewer,
    {
        if fewer < more {
            self.lemma_tables_below(fewer, more - 1);
        }
    }

    /// Two tables whose page directories have the same numbers of tables
    /// have the same number of tables.
    pub proof fn lemma_same_count(&self, other: Self, count: int)
        requires
            count <= 512,
            self.directories().len() == 512,
            other.directories().len() == 512,
            forall|k: int|
                0 <= k < 512 ==> (#[trigger] self.directories()[k] is Some) == (
                other.directories()[k] is Some),
            forall|k: int|
                0 <= k < 512 && self.directories()[k] is Some ==> (
                #[trigger] self.directories()[k]).unwrap().table_count()
                    == other.directories()[k].unwrap().table_count(),
        ensures
            self.tables_below(count) == other.tables_below(count),
        decreases count,
    {
        if count > 0 {
            self.lemma_same_count(other, count - 1);
            assert((self.directories()[count - 1] is Some) == (other.directories()[count - 1]
                is Some));
        }
    }

    /// Creates an empty page directory pointer table in a frame taken from
    /// `allocator`, which must not be exhausted.
    pub fn new(allocator: &mut MemoryMapAllocator) -> (table: Self)
        requires
            old(allocator).inv(),
            old(allocator)@.len() > 0,
        ensures
            final(allocator).inv(),
            final(allocator)@ == after_allocation(old(allocator)@),
            final(allocator).spec_layout() == old(allocator).spec_layout(),
            table.wf(old(allocator).spec_layout()),
            Some(table.frame_address()) == next_allocation(old(allocator)@),
            forall|i: int| 0 <= i < 512 ==> #[trigger] table.words()[i] == 0,
            forall|i: int| 0 <= i < 512 ==> #[trigger] table.directories()[i] is None,
    {
        let frame = allocator.allocate().unwrap();
        let zero = PdptEntryUnion::new(0u64);
        let mut directories: Vec<Option<PageDirectory>> = Vec::new();
        let mut i: usize = 0;
        while i < 512
            invariant
                i <= 512,
                directories@.len() == i,
                forall|k: int| 0 <= k < i ==> #[trigger] directories@[k] is None,
            decreases 512 - i,
        {
            directories.push(None);
            i += 1;
        }
        let table = Pdpt { entries: [zero;512], frame, directories };
        proof {
            lemma_zero_word(0, 1);
            assert forall|i: int| 0 <= i < 512 implies #[trigger] table.slot_wf(
                i,
                old(allocator).spec_layout(),
            ) by {
                assert(table.words()[i] == 0);
            }
        }
        table
    }

    /// Entry `index` of the table.
    pub fn entry(&self, index: usize) -> (entry: PdptEntryUnion)
        requires
            index < 512,
        ensures
            entry@ == self.words()[index as int],
    {
        self.entries[index]
    }

    /// The address of the frame that holds the table.
    pub fn frame_start(&self) -> (address: PhysicalAddress)
        ensures
            address@ == self.frame_address(),
    {
        self.frame.get_starting_address()
    }

    /// Maps the page of `virtual_address` that this table covers to `frame`
    /// with the given permissions. Tables that are missing on the way are
    /// created from frames of `allocator`. The page must not be mapped yet,
    /// neither by a page table nor as part of a huge page.
    pub fn map(
        &mut self,
        allocator: &mut MemoryMapAllocator,
        frame: Frame,
        virtual_address: VirtualAddress,
        writable: bool,
        no_execute: bool,
    )
        requires
            old(allocator).inv(),
            old(self).wf(old(allocator).spec_layout()),
            frame.valid(old(allocator).spec_layout()),
            old(self).lookup(
                virtual_address.pdpt_index() as int,
                virtual_address.page_directory_index() as int,
                virtual_address.page_table_index() as int,
            ) is None,
            total_pages(old(allocator)@) >= old(self).missing_tables(
                virtual_address.pdpt_index() as int,
                virtual_address.page_directory_index() as int,
            ),
        ensures
            final(allocator).inv(),
            final(allocator).spec_layout() == old(allocator).spec_layout(),
            final(allocator)@ == runs_after(
                old(allocator)@,
                old(self).missing_tables(
                    virtual_address.pdpt_index() as int,
                    virtual_address.page_directory_index() as int,
                ),
            ),
            final(self).wf(old(allocator).spec_layout()),
            final(self).frame_address() == old(self).frame_address(),
            final(self).words() == old(self).words().update(
                virtual_address.pdpt_index() as int,
                installed_word(
                    old(self).words()[virtual_address.pdpt_index() as int],
                    next_allocation(old(allocator)@),
                ),
            ),
            final(self).lookup(
                virtual_address.pdpt_index() as int,
                virtual_address.page_directory_index() as int,
                virtual_address.page_table_index() as int,
            ) == Some(Translation::Page(leaf_word(frame@, writable, no_execute))),
            final(self).missing_tables(
                virtual_address.pdpt_index() as int,
                virtual_address.page_directory_index() as int,
            ) == 0,
            forall|i: int, j: int, k: int|
                0 <= i < 512 && 0 <= j < 512 && 0 <= k < 512 && (i != virtual_address.pdpt_index()
                    || j != virtual_address.page_directory_index() || k
                    != virtual_address.page_table_index())
                        ==> #[trigger] final(self).lookup(i, j, k)
                    == old(self).lookup(i, j, k),
            forall|address: u64|
                final(self).has_table(address) <==> old(self).has_table(address) || taken_between(
                    old(allocator)@,
                    0,
                    old(self).missing_tables(
                        virtual_address.pdpt_index() as int,
                        virtual_address.page_directory_index() as int,
                    ),
                    address,
                ),
    {
        let index = virtual_address.pdpt_index();
        let layout = allocator.layout();
        let ghost runs = allocator@;
        let ghost missing = self.missing_tables(
            index as int,
            virtual_address.page_directory_index() as int,
        );
        let ghost first: nat = if self.directories()[index as int] is Some {
            0
        } else {
            1
        };
        proof {
            virtual_address.lemma_fields();
            lemma_pages_mean_runs(runs);
            lemma_allocation_total_pages(runs, layout);
        }
        assert(self.slot_wf(index as int, layout));
        if !self.entries[index].present() {
            let page_directory = PageDirectory::new(allocator);
            let mut reference = PdptEntryPageDirectory::new();
            reference.set_address(page_directory.frame_start());
            reference.set_present(true);
            proof {
                lemma_reference_word(page_directory.frame_address());
                lemma_zero_word(0, 1);
                assert forall|j: int, k: int|
                    0 <= j < 512 && 0 <= k < 512 implies
                    page_directory.lookup(
                    j,
                    k,
                ) is None by {
                    assert(page_directory.words()[j] == 0);
                }
                assert forall|address: u64| page_directory.has_table(address) implies address
                    == page_directory.frame_address() by {
                    if address != page_directory.frame_address() {
                        let i = choose|i: int|
                            0 <= i < 512 && #[trigger] page_directory.child_has_table(i, address);
                        assert(page_directory.tables()[i] is None);
                    }
                }
                assert(page_directory.tables()[virtual_address.page_directory_index() as int]
                    is None);
            }
            self.entries[index] = PdptEntryUnion::from_page_directory(reference);
            self.directories[index] = Some(page_directory);
            assert(self.words() =~= old(self).words().update(
                index as int,
                reference_word(page_directory.frame_address()),
            ));
        }
        let ghost mid = *self;
        proof {
            lemma_taken_first(runs, 0);
            assert(mid.slot_wf(index as int, layout));
            assert forall|i: int| 0 <= i < 512 implies #[trigger] mid.slot_wf(i, layout) by {
                if i != index {
                    assert(old(self).slot_wf(i, layout));
                }
            }
            assert(forall|j: int, k: int|
                0 <= j < 512 && 0 <= k < 512 ==> mid.lookup(index as int, j, k) == old(self).lookup(
                    index as int,
                    j,
                    k,
                ));
            assert(word_refers_to_table(mid.words()[index as int]));
            assert(mid.lookup(
                index as int,
                virtual_address.page_directory_index() as int,
                virtual_address.page_table_index() as int,
            ) is None);
            assert(allocator@ == runs_after(runs, first));
            assert(mid.directories()[index as int].unwrap().missing_tables(
                virtual_address.page_directory_index() as int,
            ) + first == missing);
        }
        match &mut self.directories[index] {
            Some(page_directory) => {
                page_directory.map(allocator, frame, virtual_address, writable, no_execute);
            },
            None => {
                // An entry that refers to a table owns the table.
                assert(false);
            },
        }
        proof {
            lemma_allocation_shift(runs, first, (missing - first) as nat);
            assert forall|i: int| 0 <= i < 512 implies #[trigger] self.slot_wf(i, layout) by {
                assert(mid.slot_wf(i, layout));
            }
            assert(self.words() == mid.words());
            assert(self.words() =~= old(self).words().update(
                index as int,
                installed_word(old(self).words()[index as int], next_allocation(runs)),
            ));
            assert forall|i: int, j: int, k: int|
                0 <= i < 512 && 0 <= j < 512 && 0 <= k < 512 && (i != index || j
                    != virtual_address.page_directory_index() || k
                    != virtual_address.page_table_index()) implies #[trigger] self.lookup(i, j, k)
                == old(self).lookup(i, j, k) by {
                assert(mid.lookup(index as int, j, k) == old(self).lookup(index as int, j, k));
                if i == index {
                    assert(self.directories()[index as int].unwrap().lookup(j, k)
                        == mid.directories()[index as int].unwrap().lookup(j, k));
                }
            }
            assert forall|address: u64|
                self.has_table(address) <==> old(self).has_table(address) || taken_between(
                    runs,
                    0,
                    missing,
                    address,
                ) by {
                lemma_taken_first(runs, address);
                lemma_taken_join(runs, 0, first, missing, address);
                lemma_taken_shift(runs, first, 0, (missing - first) as nat, address);
                let before = mid.directories()[index as int].unwrap();
                let after = self.directories()[index as int].unwrap();
                assert(after.has_table(address) <==> before.has_table(address) || taken_between(
                    runs,
                    first,
                    missing,
                    address,
                ));
                if self.has_table(address) && address != self.frame_address() {
                    let i = choose|i: int|
                        0 <= i < 512 && #[trigger] self.child_has_table(i, address);
                    if i != index {
                        assert(old(self).child_has_table(i, address));
                    } else if first == 0 {
                        if before.has_table(address) {
                            assert(old(self).child_has_table(i, address));
                        }
                    }
                }
                if old(self).has_table(address) && address != self.frame_address() {
                    let i = choose|i: int|
                        0 <= i < 512 && #[trigger] old(self).child_has_table(i, address);
                    if i == index {
                        assert(before.has_table(address));
                    }
                    assert(self.child_has_table(i, address));
                }
                if taken_between(runs, 0, missing, address) {
                    assert(self.child_has_table(index as int, address));
                }
            }
        }
    }
}

impl Pdpt {
    /// Whether `word` and `child` are the copy of entry `i` and of what it
    /// owns: the word differs from the entry at most in its address; if
    /// the entry refers to a page directory, `child` is a well-formed copy of
    /// that table in the frame that the word names; if not, the word is the
    /// entry's word and there is no child.
    pub open spec fn slot_copied(
        &self,
        i: int,
        word: u64,
        child: Option<PageDirectory>,
        layout: MemoryLayout,
    ) -> bool {
        &&& only_field_changed(self.words()[i], word, 12, 40)
        &&& if word_refers_to_table(self.words()[i]) {
            &&& word_refers_to_table(word)
            &&& child is Some
            &&& self.directories()[i] is Some
            &&& child.unwrap().wf(layout)
            &&& child.unwrap().frame_address() == word_address(word)
            &&& directories_alike(child.unwrap(), self.directories()[i].unwrap())
        } else {
            word == self.words()[i] && child is None
        }
    }

    /// Copies the table and every table below it into frames taken from
    /// `allocator`, which must hold as many free pages as there are tables
    /// to copy. An entry that is absent or maps a huge page is carried over
    /// as it is; an entry that refers to a page directory refers to the
    /// copy of that directory in the copy of the table, and is otherwise
    /// unchanged.
    pub fn copy(&self, allocator: &mut MemoryMapAllocator) -> (table: Self)
        requires
            old(allocator).inv(),
            self.wf(old(allocator).spec_layout()),
            total_pages(old(allocator)@) >= self.table_count(),
        ensures
            final(allocator).inv(),
            final(allocator)@ == runs_after(old(allocator)@, self.table_count()),
            final(allocator).spec_layout() == old(allocator).spec_layout(),
            table.wf(old(allocator).spec_layout()),
            Some(table.frame_address()) == next_allocation(old(allocator)@),
            forall|i: int|
                0 <= i < 512 && word_refers_to_table(self.words()[i]) ==> nth_allocation(
                    old(allocator)@,
                    1 + self.tables_below(i),
                ) == Some(word_address(#[trigger] table.words()[i])),
            table.table_count() == self.table_count(),
            forall|i: int, j: int|
                0 <= i < 512 && 0 <= j < 512 ==> #[trigger] table.missing_tables(i, j)
                    == self.missing_tables(i, j),
            forall|i: int, j: int, k: int|
                0 <= i < 512 && 0 <= j < 512 && 0 <= k < 512 ==> #[trigger] table.lookup(i, j, k)
                    == self.lookup(i, j, k),
            forall|i: int|
                0 <= i < 512 ==> only_field_changed(
                    self.words()[i],
                    #[trigger] table.words()[i],
                    12,
                    40,
                ),
            forall|i: int|
                0 <= i < 512 && !word_refers_to_table(self.words()[i])
                    ==> #[trigger] table.words()[i] == self.words()[i],
            forall|address: u64|
                table.has_table(address) <==> taken_between(
                    old(allocator)@,
                    0,
                    self.table_count(),
                    address,
                ),
    {
        let layout = allocator.layout();
        let ghost runs = allocator@;
        proof {
            lemma_pages_mean_runs(runs);
        }
        let frame = allocator.allocate().unwrap();
        let ghost own = frame@;
        let mut entries = self.entries;
        let mut directories: Vec<Option<PageDirectory>> = Vec::new();
        let mut i: usize = 0;
        proof {
            lemma_taken_first(runs, own);
            assert forall|address: u64| #[trigger]
                directory_among(directories@, 0, address)
                    <==> taken_between(runs, 1, 1, address) by {}
        }
        while i < 512
            invariant
                i <= 512,
                self.wf(layout),
                allocator.inv(),
                allocator.spec_layout() == layout,
                runs_wf(runs, layout),
                total_pages(runs) >= self.table_count(),
                allocator@ == runs_after(runs, 1 + self.tables_below(i as int)),
                directories@.len() == i,
                forall|k: int| i <= k < 512 ==> (#[trigger] entries@[k])@ == self.words()[k],
                forall|k: int|
                    0 <= k < i
                        ==> #[trigger] self.slot_copied(k, entries@[k]@, directories@[k], layout),
                forall|k: int|
                    0 <= k < i && word_refers_to_table(self.words()[k]) ==> nth_allocation(
                        runs,
                        1 + self.tables_below(k),
                    ) == Some(word_address((#[trigger] entries@[k])@)),
                forall|address: u64|
                    #[trigger] directory_among(directories@, i as int, address) <==> taken_between(
                        runs,
                        1,
                        1 + self.tables_below(i as int),
                        address,
                    ),
            decreases 512 - i,
        {
            let ghost done = 1 + self.tables_below(i as int);
            let ghost earlier = directories@;
            let ghost earlier_entries = entries@;
            assert(self.slot_wf(i as int, layout));
            assert(entries@[i as int]@ == self.words()[i as int]);
            proof {
                self.lemma_tables_below(i + 1, 512);
                lemma_pages_left(runs, layout, done);
            }
            match &self.directories[i] {
                Some(child) => {
                    let ghost count = child.table_count();
                    let copied = child.copy(allocator);
                    let mut reference = match entries[i].get_entry() {
                        PdptEntry::PageDirectory(reference) => reference,
                        PdptEntry::HugePage(_) => PdptEntryPageDirectory::new(),
                    };
                    assert(reference@ == self.words()[i as int]);
                    reference.set_address(copied.frame_start());
                    proof {
                        lemma_low_mask_values();
                        lemma_number_shifts(copied.frame_address());
                        lemma_allocation_shift(runs, done, count);
                        let unchanged_word = self.words()[i as int];
                        assert(only_field_changed(unchanged_word, reference@, 12, 40));
                        assert(field_of(reference@, 0, 1) == field_of(unchanged_word, 0, 1));
                        assert(field_of(reference@, 7, 1) == field_of(unchanged_word, 7, 1));
                        assert(word_refers_to_table(reference@));
                        assert(word_address(reference@) == copied.frame_address());
                        assert(directories_alike(copied, *child));
                        assert(self.slot_copied(i as int, reference@, Some(copied), layout));
                        lemma_allocation_shift(runs, done, 0);
                        assert(nth_allocation(runs, done) == Some(copied.frame_address()));
                        assert forall|address: u64| #[trigger]
                            directory_among(earlier.push(Some(copied)), i + 1, address)
                                <==> taken_between(
                                runs,
                                1,
                                done + count,
                                address,
                            ) by {
                            lemma_directory_pushed(earlier, Some(copied), runs, done, count, address);
                        }
                    }
                    entries[i] = PdptEntryUnion::from_page_directory(reference);
                    directories.push(Some(copied));
                },
                None => {
                    proof {
                        assert(self.slot_copied(i as int, entries@[i as int]@, None, layout));
                        assert forall|address: u64| #[trigger]
                            directory_among(earlier.push(None), i + 1, address) <==> taken_between(
                                runs,
                                1,
                                done,
                                address,
                            ) by {
                            lemma_directory_pushed(earlier, None, runs, done, 0, address);
                        }
                    }
                    directories.push(None);
                },
            }
            proof {
                assert forall|k: int| i + 1 <= k < 512 implies (#[trigger] entries@[k])@
                    == self.words()[k] by {
                    assert(entries@[k] == earlier_entries[k]);
                }
                assert forall|k: int|
                    0 <= k < i + 1 && word_refers_to_table(self.words()[k]) implies
                    nth_allocation(
                    runs,
                    1 + self.tables_below(k),
                ) == Some(word_address((#[trigger] entries@[k])@)) by {
                    if k < i {
                        assert(entries@[k] == earlier_entries[k]);
                    }
                }
                assert forall|k: int| 0 <= k < i + 1 implies #[trigger] self.slot_copied(
                    k,
                    entries@[k]@,
                    directories@[k],
                    layout,
                ) by {
                    if k < i {
                        assert(entries@[k] == earlier_entries[k]);
                        assert(directories@[k] == earlier[k]);
                        assert(self.slot_copied(k, earlier_entries[k]@, earlier[k], layout));
                    }
                }
            }
            i += 1;
        }
        let table = Pdpt { entries, frame, directories: directories };
        proof {
            assert forall|k: int| 0 <= k < 512 implies #[trigger] table.slot_wf(k, layout) by {
                assert(self.slot_copied(k, entries@[k]@, directories@[k], layout));
                assert(self.slot_wf(k, layout));
                assert(table.words()[k] == entries@[k]@);
            }
            assert forall|k: int, j: int|
                0 <= k < 512 && 0 <= j < 512 implies
                #[trigger] table.missing_tables(
                k,
                j,
            ) == self.missing_tables(k, j) by {
                assert(self.slot_copied(k, entries@[k]@, directories@[k], layout));
                assert(self.slot_wf(k, layout));
                if word_refers_to_table(self.words()[k]) {
                    assert(table.directories()[k].unwrap().missing_tables(j)
                        == self.directories()[k].unwrap().missing_tables(j));
                }
            }
            assert forall|k: int, j: int, l: int|
                0 <= k < 512 && 0 <= j < 512 && 0 <= l < 512 implies
                    #[trigger] table.lookup(k, j, l)
                == self.lookup(k, j, l) by {
                assert(self.slot_copied(k, entries@[k]@, directories@[k], layout));
                assert(self.slot_wf(k, layout));
                assert(table.words()[k] == entries@[k]@);
                assert(field_of(table.words()[k], 0, 1) == field_of(self.words()[k], 0, 1));
                assert(field_of(table.words()[k], 7, 1) == field_of(self.words()[k], 7, 1));
                if word_refers_to_table(self.words()[k]) {
                    assert(table.directories()[k].unwrap().lookup(j, l)
                        == self.directories()[k].unwrap().lookup(j, l));
                }
            }
            assert forall|k: int| 0 <= k < 512 implies only_field_changed(
                self.words()[k],
                #[trigger] table.words()[k],
                12,
                40,
            ) by {
                assert(self.slot_copied(k, entries@[k]@, directories@[k], layout));
                assert(table.words()[k] == entries@[k]@);
            }
            assert forall|k: int|
                0 <= k < 512 && !word_refers_to_table(self.words()[k]) implies
                    #[trigger] table.words()[k]
                == self.words()[k] by {
                assert(self.slot_copied(k, entries@[k]@, directories@[k], layout));
                assert(table.words()[k] == entries@[k]@);
            }
            assert forall|k: int|
                0 <= k < 512 implies
                (#[trigger] table.directories()[k] is Some) == (
            self.directories()[k] is Some) by {
                assert(self.slot_copied(k, entries@[k]@, directories@[k], layout));
                assert(self.slot_wf(k, layout));
            }
            assert forall|k: int| 0 <= k < 512 && table.directories()[k] is Some implies (
            #[trigger] table.directories()[k]).unwrap().table_count()
                == self.directories()[k].unwrap().table_count() by {
                assert(self.slot_copied(k, entries@[k]@, directories@[k], layout));
                assert(self.slot_wf(k, layout));
            }
            assert forall|k: int|
                0 <= k < 512 && word_refers_to_table(self.words()[k]) implies
                nth_allocation(
                runs,
                1 + self.tables_below(k),
            ) == Some(word_address(#[trigger] table.words()[k])) by {
                assert(table.words()[k] == entries@[k]@);
            }
            table.lemma_same_count(*self, 512);
            assert forall|address: u64|
                table.has_table(address) <==> taken_between(
                    runs,
                    0,
                    self.table_count(),
                    address,
                ) by {
                lemma_taken_first(runs, address);
                lemma_taken_join(runs, 0, 1, self.table_count(), address);
                assert(directory_among(directories@, 512, address) <==> taken_between(
                    runs,
                    1,
                    self.table_count(),
                    address,
                ));
                if exists|k: int| 0 <= k < 512 && #[trigger] table.child_has_table(k, address) {
                    let k = choose|k: int|
                        0 <= k < 512 && #[trigger] table.child_has_table(k, address);
                    assert(directory_in(directories@, k, address));
                }
                if taken_between(runs, 1, self.table_count(), address) {
                    let k = choose|k: int|
                        0 <= k < 512 && #[trigger] directory_in(directories@, k, address);
                    assert(table.child_has_table(k, address));
                }
            }
        }
        table
    }
}

/// Whether two page directories lack the same page tables.
pub open spec fn same_tables_missing(first: PageDirectory, second: PageDirectory) -> bool {
    forall|j: int| 0 <= j < 512 ==> #[trigger] first.missing_tables(j) == second.missing_tables(j)
}

/// Whether two page directories resolve every pair of indices alike.
pub open spec fn same_directory(first: PageDirectory, second: PageDirectory) -> bool {
    forall|j: int, k: int|
        0 <= j < 512 && 0 <= k < 512 ==> #[trigger] first.lookup(j, k) == second.lookup(j, k)
}

/// The top level: each entry refers to a page directory pointer table. The
/// top-level table stands for the whole hierarchy below it.
pub struct PML4 {
    entries: [Pml4Entry; 512],
    frame: Frame,
    pdpts: Vec<Option<Pdpt>>,
}

/// Whether entry `i` of `pdpts` holds a table that has a table in the frame
/// at `address`.
pub open spec fn pdpt_in(pdpts: Seq<Option<Pdpt>>, i: int, address: u64) -> bool {
    pdpts[i] is Some && pdpts[i].unwrap().has_table(address)
}

/// Whether one of the first `count` entries of `pdpts` holds a table that
/// has a table in the frame at `address`.
pub open spec fn pdpt_among(pdpts: Seq<Option<Pdpt>>, count: int, address: u64) -> bool {
    exists|k: int| 0 <= k < count && #[trigger] pdpt_in(pdpts, k, address)
}

/// Whether two page directory pointer tables resolve every triple of
/// indices alike.
pub open spec fn same_pdpt(first: Pdpt, second: Pdpt) -> bool {
    forall|i: int, j: int, k: int|
        0 <= i < 512 && 0 <= j < 512 && 0 <= k < 512 ==> #[trigger] first.lookup(i, j, k)
            == second.lookup(i, j, k)
}

/// Whether two virtual addresses lie in the same 4 KiB page.
pub open spec fn same_page(first: VirtualAddress, second: VirtualAddress) -> bool {
    &&& first.pml4_index() == second.pml4_index()
    &&& first.pdpt_index() == second.pdpt_index()
    &&& first.page_directory_index() == second.page_directory_index()
    &&& first.page_table_index() == second.page_table_index()
}

impl PML4 {
    /// The words of the 512 entries.
    pub closed spec fn words(&self) -> Seq<u64> {
        Seq::new(512, |i: int| self.entries@[i]@)
    }

    /// The physical address of the frame that holds the table.
    pub closed spec fn frame_address(&self) -> u64 {
        self.frame@
    }

    /// The page directory pointer tables that the table owns, by the index
    /// of the entry that refers to each.
    pub closed spec fn pdpts(&self) -> Seq<Option<Pdpt>> {
        self.pdpts@
    }

    /// A present entry owns a well-formed page directory pointer table in
    /// the frame that the entry names; an absent entry owns nothing.
    pub open spec fn slot_wf(&self, i: int, layout: MemoryLayout) -> bool {
        if word_present(self.words()[i]) {
            &&& self.pdpts()[i] is Some
            &&& self.pdpts()[i].unwrap().wf(layout)
            &&& self.pdpts()[i].unwrap().frame_address() == word_address(self.words()[i])
        } else {
            self.pdpts()[i] is None
        }
    }

    /// The table has 512 entries, lies in a frame of physical memory, and
    /// each of its entries is consistent with what it owns.
    pub open spec fn wf(&self, layout: MemoryLayout) -> bool {
        &&& self.words().len() == 512
        &&& self.pdpts().len() == 512
        &&& frame_in_memory(self.frame_address(), layout)
        &&& forall|i: int| 0 <= i < 512 ==> #[trigger] self.slot_wf(i, layout)
    }

    /// What the walk through the four tables by the four given indices
    /// resolves to.
    pub open spec fn lookup(
        &self,
        pml4_index: int,
        pdpt_index: int,
        directory_index: int,
        table_index: int,
    ) -> Option<Translation> {
        if !word_present(self.words()[pml4_index]) {
            None
        } else {
            self.pdpts()[pml4_index].unwrap().lookup(pdpt_index, directory_index, table_index)
        }
    }

    /// What `virtual_address` resolves to: nothing if an entry on the way
    /// is absent, and else the entry at which the walk ends.
    pub open spec fn spec_translate(&self, virtual_address: VirtualAddress) -> Option<Translation> {
        self.lookup(
            virtual_address.pml4_index() as int,
            virtual_address.pdpt_index() as int,
            virtual_address.page_directory_index() as int,
            virtual_address.page_table_index() as int,
        )
    }

    /// Whether the table owned through entry `i` has a table in the frame
    /// at `address`.
    pub open spec fn child_has_table(&self, i: int, address: u64) -> bool {
        pdpt_in(self.pdpts(), i, address)
    }

    /// Whether a table of the hierarchy lies in the frame at `address`.
    pub open spec fn has_table(&self, address: u64) -> bool {
        address == self.frame_address() || exists|i: int|
            0 <= i < 512 && #[trigger] self.child_has_table(i, address)
    }

    /// The number of tables owned through the first `count` entries.
    pub open spec fn tables_below(&self, count: int) -> nat
        decreases count,
    {
        if count <= 0 {
            0
        } else {
            self.tables_below(count - 1) + match self.pdpts()[count - 1] {
                Some(pdpt) => pdpt.table_count(),
                None => 0,
            }
        }
    }

    /// The number of tables of the hierarchy.
    pub open spec fn table_count(&self) -> nat {
        1 + self.tables_below(512)
    }

    /// The number of tables that mapping the page of `virtual_address` has
    /// to create: none if the page table for it exists, up to three if the
    /// top-level entry is absent.
    pub open spec fn missing_tables(&self, virtual_address: VirtualAddress) -> nat {
        match self.pdpts()[virtual_address.pml4_index() as int] {
            Some(pdpt) => pdpt.missing_tables(
                virtual_address.pdpt_index() as int,
                virtual_address.page_directory_index() as int,
            ),
            None => 3,
        }
    }

    /// Counting the tables of more entries never gives less.
    pub proof fn lemma_tables_below(&self, fewer: int, more: int)
        requires
            fewer <= more,
        ensures
            self.tables_below(fewer) <= self.tables_below(more),
        decreases more - fewer,
    {
        if fewer < more {
            self.lemma_tables_below(fewer, more - 1);
        }
    }

    /// Two hierarchies whose page directory pointer tables have the same
    /// numbers of tables have the same number of tables.
    pub proof fn lemma_same_count(&self, other: Self, count: int)
        requires
            count <= 512,
            self.pdpts().len() == 512,
            other.pdpts().len() == 512,
            forall|k: int|
                0 <= k < 512 ==> (#[trigger] self.pdpts()[k] is Some) == (other.pdpts()[k] is Some),
            forall|k: int|
                0 <= k < 512 && self.pdpts()[k] is Some ==> (
                #[trigger] self.pdpts()[k]).unwrap().table_count()
                    == other.pdpts()[k].unwrap().table_count(),
        ensures
            self.tables_below(count) == other.tables_below(count),
        decreases count,
    {
        if count > 0 {
            self.lemma_same_count(other, count - 1);
            assert((self.pdpts()[count - 1] is Some) == (other.pdpts()[count - 1] is Some));
        }
    }

    /// Creates an empty top-level table in a frame taken from `allocator`,
    /// which must not be exhausted.
    pub fn new(allocator: &mut MemoryMapAllocator) -> (table: Self)
        requires
            old(allocator).inv(),
            old(allocator)@.len() > 0,
        ensures
            final(allocator).inv(),
            final(allocator)@ == after_allocation(old(allocator)@),
            final(allocator).spec_layout() == old(allocator).spec_layout(),
            table.wf(old(allocator).spec_layout()),
            Some(table.frame_address()) == next_allocation(old(allocator)@),
            forall|i: int| 0 <= i < 512 ==> #[trigger] table.words()[i] == 0,
            forall|i: int| 0 <= i < 512 ==> #[trigger] table.pdpts()[i] is None,
            forall|virtual_address: VirtualAddress| #[trigger]
                table.spec_translate(virtual_address) is None,
            forall|virtual_address: VirtualAddress| #[trigger]
                table.missing_tables(virtual_address) == 3,
            forall|address: u64| table.has_table(address) <==> address == table.frame_address(),
    {
        let frame = allocator.allocate().unwrap();
        let zero = Pml4Entry::new();
        let mut pdpts: Vec<Option<Pdpt>> = Vec::new();
        let mut i: usize = 0;
        while i < 512
            invariant
                i <= 512,
                pdpts@.len() == i,
                forall|k: int| 0 <= k < i ==> #[trigger] pdpts@[k] is None,
            decreases 512 - i,
        {
            pdpts.push(None);
            i += 1;
        }
        let table = PML4 { entries: [zero;512], frame, pdpts };
        proof {
            lemma_zero_word(0, 1);
            assert forall|i: int| 0 <= i < 512 implies #[trigger] table.slot_wf(
                i,
                old(allocator).spec_layout(),
            ) by {
                assert(table.words()[i] == 0);
            }
            assert forall|virtual_address: VirtualAddress| #[trigger]
                table.spec_translate(virtual_address) is None by {
                virtual_address.lemma_fields();
                assert(table.words()[virtual_address.pml4_index() as int] == 0);
            }
            assert forall|virtual_address: VirtualAddress| #[trigger]
                table.missing_tables(virtual_address) == 3 by {
                virtual_address.lemma_fields();
                assert(table.pdpts()[virtual_address.pml4_index() as int] is None);
            }
            assert forall|address: u64| table.has_table(address) implies address
                == table.frame_address() by {
                if address != table.frame_address() {
                    let i = choose|i: int|
                        0 <= i < 512 && #[trigger] table.child_has_table(i, address);
                    assert(table.pdpts()[i] is None);
                }
            }
        }
        table
    }

    /// Entry `index` of the table.
    pub fn entry(&self, index: usize) -> (entry: Pml4Entry)
        requires
            index < 512,
        ensures
            entry@ == self.words()[index as int],
    {
        self.entries[index]
    }

    /// The address of the frame that holds the table.
    pub fn frame_start(&self) -> (address: PhysicalAddress)
        ensures
            address@ == self.frame_address(),
    {
        self.frame.get_starting_address()
    }

    /// Maps the page of `virtual_address` to `frame` with the given
    /// permissions.
    ///
    /// The walk goes through the four levels by the four indices of the
    /// address. A table that is missing on the way is created from a frame
    /// of `allocator` and installed in the entry that was absent. The page
    /// must not be mapped yet, neither by a page table nor as part of a
    /// huge page, and the allocator must hold a free page for every table
    /// that is missing. Afterwards the page is mapped, so it cannot be
    /// mapped again; every other page resolves as before.
    pub fn map(
        &mut self,
        allocator: &mut MemoryMapAllocator,
        frame: Frame,
        virtual_address: VirtualAddress,
        writable: bool,
        no_execute: bool,
    )
        requires
            old(allocator).inv(),
            old(self).wf(old(allocator).spec_layout()),
            frame.valid(old(allocator).spec_layout()),
            old(self).spec_translate(virtual_address) is None,
            total_pages(old(allocator)@) >= old(self).missing_tables(virtual_address),
        ensures
            final(allocator).inv(),
            final(allocator).spec_layout() == old(allocator).spec_layout(),
            final(allocator)@ == runs_after(
                old(allocator)@,
                old(self).missing_tables(virtual_address),
            ),
            final(self).wf(old(allocator).spec_layout()),
            final(self).frame_address() == old(self).frame_address(),
            final(self).words() == old(self).words().update(
                virtual_address.pml4_index() as int,
                installed_word(
                    old(self).words()[virtual_address.pml4_index() as int],
                    next_allocation(old(allocator)@),
                ),
            ),
            final(self).spec_translate(virtual_address) == Some(
                Translation::Page(leaf_word(frame@, writable, no_execute)),
            ),
            final(self).missing_tables(virtual_address) == 0,
            forall|other: VirtualAddress|
                !same_page(other, virtual_address) ==> #[trigger] final(self).spec_translate(other)
                    == old(self).spec_translate(other),
            forall|address: u64|
                final(self).has_table(address) <==> old(self).has_table(address) || taken_between(
                    old(allocator)@,
                    0,
                    old(self).missing_tables(virtual_address),
                    address,
                ),
            forall|address: u64| #[trigger]
                final(self).has_table(address) && !old(self).has_table(address) ==> old(
                    allocator).free_frames().contains(address)
                        && !final(allocator).free_frames().contains(
                    address,
                ),
    {
        let index = virtual_address.pml4_index();
        let layout = allocator.layout();
        let ghost runs = allocator@;
        let ghost missing = self.missing_tables(virtual_address);
        let ghost first: nat = if self.pdpts()[index as int] is Some {
            0
        } else {
            1
        };
        proof {
            virtual_address.lemma_fields();
            lemma_pages_mean_runs(runs);
            lemma_allocation_total_pages(runs, layout);
        }
        assert(self.slot_wf(index as int, layout));
        if !self.entries[index].present() {
            let new_pdpt = Pdpt::new(allocator);
            let mut pml4_entry = Pml4Entry::new();
            pml4_entry.set_address(new_pdpt.frame_start());
            pml4_entry.set_present(true);
            proof {
                lemma_reference_word(new_pdpt.frame_address());
                lemma_zero_word(0, 1);
                assert forall|i: int, j: int, k: int|
                    0 <= i < 512 && 0 <= j < 512 && 0 <= k < 512 implies new_pdpt.lookup(i, j, k)
                    is None by {
                    assert(new_pdpt.words()[i] == 0);
                }
                assert forall|address: u64| new_pdpt.has_table(address) implies address
                    == new_pdpt.frame_address() by {
                    if address != new_pdpt.frame_address() {
                        let i = choose|i: int|
                            0 <= i < 512 && #[trigger] new_pdpt.child_has_table(i, address);
                        assert(new_pdpt.directories()[i] is None);
                    }
                }
                assert(new_pdpt.directories()[virtual_address.pdpt_index() as int] is None);
            }
            self.entries[index] = pml4_entry;
            self.pdpts[index] = Some(new_pdpt);
            assert(self.words() =~= old(self).words().update(
                index as int,
                reference_word(new_pdpt.frame_address()),
            ));
        }
        let ghost mid = *self;
        proof {
            lemma_taken_first(runs, 0);
            assert(mid.slot_wf(index as int, layout));
            assert forall|i: int| 0 <= i < 512 implies #[trigger] mid.slot_wf(i, layout) by {
                if i != index {
                    assert(old(self).slot_wf(i, layout));
                }
            }
            assert(forall|i: int, j: int, k: int|
                0 <= i < 512 && 0 <= j < 512 && 0 <= k < 512 ==> mid.lookup(index as int, i, j, k)
                    == old(self).lookup(index as int, i, j, k));
            assert(word_present(mid.words()[index as int]));
            assert(mid.spec_translate(virtual_address) is None);
            assert(allocator@ == runs_after(runs, first));
            assert(mid.pdpts()[index as int].unwrap().missing_tables(
                virtual_address.pdpt_index() as int,
                virtual_address.page_directory_index() as int,
            ) + first == missing);
        }
        match &mut self.pdpts[index] {
            Some(pdpt) => {
                pdpt.map(allocator, frame, virtual_address, writable, no_execute);
            },
            None => {
                // An entry that refers to a table owns the table.
                assert(false);
            },
        }
        proof {
            lemma_allocation_shift(runs, first, (missing - first) as nat);
            assert forall|i: int| 0 <= i < 512 implies #[trigger] self.slot_wf(i, layout) by {
                assert(mid.slot_wf(i, layout));
            }
            assert(self.words() == mid.words());
            assert(self.words() =~= old(self).words().update(
                index as int,
                installed_word(old(self).words()[index as int], next_allocation(runs)),
            ));
            assert forall|other: VirtualAddress|
                !same_page(other, virtual_address) implies #[trigger] self.spec_translate(other)
                == old(self).spec_translate(other) by {
                other.lemma_fields();
                let i = other.pdpt_index() as int;
                let j = other.page_directory_index() as int;
                let k = other.page_table_index() as int;
                assert(mid.lookup(index as int, i, j, k)
                    == old(self).lookup(index as int, i, j, k));
                if other.pml4_index() == index {
                    assert(self.pdpts()[index as int].unwrap().lookup(i, j, k)
                        == mid.pdpts()[index as int].unwrap().lookup(i, j, k));
                }
            }
            assert forall|address: u64|
                self.has_table(address) <==> old(self).has_table(address) || taken_between(
                    runs,
                    0,
                    missing,
                    address,
                ) by {
                lemma_taken_first(runs, address);
                lemma_taken_join(runs, 0, first, missing, address);
                lemma_taken_shift(runs, first, 0, (missing - first) as nat, address);
                let before = mid.pdpts()[index as int].unwrap();
                let after = self.pdpts()[index as int].unwrap();
                assert(after.has_table(address) <==> before.has_table(address) || taken_between(
                    runs,
                    first,
                    missing,
                    address,
                ));
                if self.has_table(address) && address != self.frame_address() {
                    let i = choose|i: int|
                        0 <= i < 512 && #[trigger] self.child_has_table(i, address);
                    if i != index {
                        assert(old(self).child_has_table(i, address));
                    } else if first == 0 {
                        if before.has_table(address) {
                            assert(old(self).child_has_table(i, address));
                        }
                    }
                }
                if old(self).has_table(address) && address != self.frame_address() {
                    let i = choose|i: int|
                        0 <= i < 512 && #[trigger] old(self).child_has_table(i, address);
                    if i == index {
                        assert(before.has_table(address));
                    }
                    assert(self.child_has_table(i, address));
                }
                if taken_between(runs, 0, missing, address) {
                    assert(self.child_has_table(index as int, address));
                }
            }
            assert forall|address: u64| #[trigger]
                self.has_table(address) && !old(self).has_table(address) implies frames_of(
                runs,
            ).contains(address) && !frames_of(allocator@).contains(address) by {
                crate::pmm::lemma_taken_was_free(runs, layout, 0, missing, address);
            }
        }
    }
}

impl PML4 {
    /// Whether `word` and `child` are the copy of entry `i` and of what it
    /// owns: the word differs from the entry at most in its address; if
    /// the entry refers to a page directory pointer table, `child` is a well-formed copy of
    /// that table in the frame that the word names; if not, the word is the
    /// entry's word and there is no child.
    pub open spec fn slot_copied(
        &self,
        i: int,
        word: u64,
        child: Option<Pdpt>,
        layout: MemoryLayout,
    ) -> bool {
        &&& only_field_changed(self.words()[i], word, 12, 40)
        &&& if word_present(self.words()[i]) {
            &&& word_present(word)
            &&& child is Some
            &&& self.pdpts()[i] is Some
            &&& child.unwrap().wf(layout)
            &&& child.unwrap().frame_address() == word_address(word)
            &&& pdpts_alike(child.unwrap(), self.pdpts()[i].unwrap())
        } else {
            word == self.words()[i] && child is None
        }
    }

    /// Copies the whole hierarchy into frames taken from `allocator`, which
    /// must hold as many free pages as the hierarchy has tables.
    ///
    /// Every table of the hierarchy is copied into a frame of its own, so
    /// the copy shares no table with the hierarchy it was made from, and every frame that
    /// holds a table of the copy was free before. Entries that are absent
    /// or map a huge page are carried over as they are, and so are the
    /// entries of page tables: the copy resolves every virtual address to
    /// the same entry word, and so to the same frame, as that hierarchy.
    pub fn copy(&self, allocator: &mut MemoryMapAllocator) -> (table: Self)
        requires
            old(allocator).inv(),
            self.wf(old(allocator).spec_layout()),
            total_pages(old(allocator)@) >= self.table_count(),
        ensures
            final(allocator).inv(),
            final(allocator)@ == runs_after(old(allocator)@, self.table_count()),
            final(allocator).spec_layout() == old(allocator).spec_layout(),
            table.wf(old(allocator).spec_layout()),
            Some(table.frame_address()) == next_allocation(old(allocator)@),
            forall|i: int|
                0 <= i < 512 && word_present(self.words()[i]) ==> nth_allocation(
                    old(allocator)@,
                    1 + self.tables_below(i),
                ) == Some(word_address(#[trigger] table.words()[i])),
            table.table_count() == self.table_count(),
            forall|virtual_address: VirtualAddress| #[trigger]
                table.spec_translate(virtual_address) == self.spec_translate(virtual_address),
            forall|virtual_address: VirtualAddress| #[trigger]
                table.missing_tables(virtual_address) == self.missing_tables(virtual_address),
            forall|i: int|
                0 <= i < 512 ==> only_field_changed(
                    self.words()[i],
                    #[trigger] table.words()[i],
                    12,
                    40,
                ),
            forall|i: int|
                0 <= i < 512 && !word_present(self.words()[i]) ==> #[trigger] table.words()[i]
                    == self.words()[i],
            forall|address: u64|
                table.has_table(address) <==> taken_between(
                    old(allocator)@,
                    0,
                    self.table_count(),
                    address,
                ),
            forall|address: u64| #[trigger]
                table.has_table(address) ==> old(allocator).free_frames().contains(address)
                    && !final(allocator).free_frames().contains(address),
    {
        let layout = allocator.layout();
        let ghost runs = allocator@;
        proof {
            lemma_pages_mean_runs(runs);
        }
        let frame = allocator.allocate().unwrap();
        let ghost own = frame@;
        let mut entries = self.entries;
        let mut pdpts: Vec<Option<Pdpt>> = Vec::new();
        let mut i: usize = 0;
        proof {
            lemma_taken_first(runs, own);
            assert forall|address: u64| #[trigger]
                pdpt_among(pdpts@, 0, address) <==> taken_between(runs, 1, 1, address) by {}
        }
        while i < 512
            invariant
                i <= 512,
                self.wf(layout),
                allocator.inv(),
                allocator.spec_layout() == layout,
                runs_wf(runs, layout),
                total_pages(runs) >= self.table_count(),
                allocator@ == runs_after(runs, 1 + self.tables_below(i as int)),
                pdpts@.len() == i,
                forall|k: int| i <= k < 512 ==> (#[trigger] entries@[k])@ == self.words()[k],
                forall|k: int|
                    0 <= k < i ==> #[trigger] self.slot_copied(k, entries@[k]@, pdpts@[k], layout),
                forall|k: int|
                    0 <= k < i && word_present(self.words()[k]) ==> nth_allocation(
                        runs,
                        1 + self.tables_below(k),
                    ) == Some(word_address((#[trigger] entries@[k])@)),
                forall|address: u64|
                    #[trigger] pdpt_among(pdpts@, i as int, address) <==> taken_between(
                        runs,
                        1,
                        1 + self.tables_below(i as int),
                        address,
                    ),
            decreases 512 - i,
        {
            let ghost done = 1 + self.tables_below(i as int);
            let ghost earlier = pdpts@;
            let ghost earlier_entries = entries@;
            assert(self.slot_wf(i as int, layout));
            assert(entries@[i as int]@ == self.words()[i as int]);
            proof {
                self.lemma_tables_below(i + 1, 512);
                lemma_pages_left(runs, layout, done);
            }
            match &self.pdpts[i] {
                Some(child) => {
                    let ghost count = child.table_count();
                    let copied = child.copy(allocator);
                    let mut reference = entries[i];
                    assert(reference@ == self.words()[i as int]);
                    reference.set_address(copied.frame_start());
                    proof {
                        lemma_low_mask_values();
                        lemma_number_shifts(copied.frame_address());
                        lemma_allocation_shift(runs, done, count);
                        let unchanged_word = self.words()[i as int];
                        assert(only_field_changed(unchanged_word, reference@, 12, 40));
                        assert(field_of(reference@, 0, 1) == field_of(unchanged_word, 0, 1));
                        assert(word_present(reference@));
                        assert(word_address(reference@) == copied.frame_address());
                        assert(pdpts_alike(copied, *child));
                        assert(self.slot_copied(i as int, reference@, Some(copied), layout));
                        lemma_allocation_shift(runs, done, 0);
                        assert(nth_allocation(runs, done) == Some(copied.frame_address()));
                        assert forall|address: u64| #[trigger]
                            pdpt_among(earlier.push(Some(copied)), i + 1, address)
                                <==> taken_between(
                                runs,
                                1,
                                done + count,
                                address,
                            ) by {
                            lemma_pdpt_pushed(earlier, Some(copied), runs, done, count, address);
                        }
                    }
                    entries[i] = reference;
                    pdpts.push(Some(copied));
                },
                None => {
                    proof {
                        assert(self.slot_copied(i as int, entries@[i as int]@, None, layout));
                        assert forall|address: u64| #[trigger]
                            pdpt_among(earlier.push(None), i + 1, address) <==> taken_between(
                                runs,
                                1,
                                done,
                                address,
                            ) by {
                            lemma_pdpt_pushed(earlier, None, runs, done, 0, address);
                        }
                    }
                    pdpts.push(None);
                },
            }
            proof {
                assert forall|k: int| i + 1 <= k < 512 implies (#[trigger] entries@[k])@
                    == self.words()[k] by {
                    assert(entries@[k] == earlier_entries[k]);
                }
                assert forall|k: int|
                    0 <= k < i + 1 && word_present(self.words()[k]) implies
                    nth_allocation(
                    runs,
                    1 + self.tables_below(k),
                ) == Some(word_address((#[trigger] entries@[k])@)) by {
                    if k < i {
                        assert(entries@[k] == earlier_entries[k]);
                    }
                }
                assert forall|k: int| 0 <= k < i + 1 implies #[trigger] self.slot_copied(
                    k,
                    entries@[k]@,
                    pdpts@[k],
                    layout,
                ) by {
                    if k < i {
                        assert(entries@[k] == earlier_entries[k]);
                        assert(pdpts@[k] == earlier[k]);
                        assert(self.slot_copied(k, earlier_entries[k]@, earlier[k], layout));
                    }
                }
            }
            i += 1;
        }
        let table = PML4 { entries, frame, pdpts: pdpts };
        proof {
            assert forall|k: int| 0 <= k < 512 implies #[trigger] table.slot_wf(k, layout) by {
                assert(self.slot_copied(k, entries@[k]@, pdpts@[k], layout));
                assert(self.slot_wf(k, layout));
                assert(table.words()[k] == entries@[k]@);
            }
            assert forall|virtual_address: VirtualAddress| #[trigger]
                table.spec_translate(virtual_address) == self.spec_translate(virtual_address) by {
                virtual_address.lemma_fields();
                let k = virtual_address.pml4_index() as int;
                assert(self.slot_copied(k, entries@[k]@, pdpts@[k], layout));
                assert(self.slot_wf(k, layout));
                assert(table.words()[k] == entries@[k]@);
                assert(field_of(table.words()[k], 0, 1) == field_of(self.words()[k], 0, 1));
                if word_present(self.words()[k]) {
                    assert(table.pdpts()[k].unwrap().lookup(
                        virtual_address.pdpt_index() as int,
                        virtual_address.page_directory_index() as int,
                        virtual_address.page_table_index() as int,
                    ) == self.pdpts()[k].unwrap().lookup(
                        virtual_address.pdpt_index() as int,
                        virtual_address.page_directory_index() as int,
                        virtual_address.page_table_index() as int,
                    ));
                }
            }
            assert forall|virtual_address: VirtualAddress| #[trigger]
                table.missing_tables(virtual_address) == self.missing_tables(virtual_address) by {
                virtual_address.lemma_fields();
                let k = virtual_address.pml4_index() as int;
                assert(self.slot_copied(k, entries@[k]@, pdpts@[k], layout));
                assert(self.slot_wf(k, layout));
                if word_present(self.words()[k]) {
                    assert(table.pdpts()[k].unwrap().missing_tables(
                        virtual_address.pdpt_index() as int,
                        virtual_address.page_directory_index() as int,
                    ) == self.pdpts()[k].unwrap().missing_tables(
                        virtual_address.pdpt_index() as int,
                        virtual_address.page_directory_index() as int,
                    ));
                }
            }
            assert forall|k: int| 0 <= k < 512 implies only_field_changed(
                self.words()[k],
                #[trigger] table.words()[k],
                12,
                40,
            ) by {
                assert(self.slot_copied(k, entries@[k]@, pdpts@[k], layout));
                assert(table.words()[k] == entries@[k]@);
            }
            assert forall|k: int|
                0 <= k < 512 && !word_present(self.words()[k]) implies #[trigger] table.words()[k]
                == self.words()[k] by {
                assert(self.slot_copied(k, entries@[k]@, pdpts@[k], layout));
                assert(table.words()[k] == entries@[k]@);
            }
            assert forall|k: int| 0 <= k < 512 implies (#[trigger] table.pdpts()[k] is Some) == (
            self.pdpts()[k] is Some) by {
                assert(self.slot_copied(k, entries@[k]@, pdpts@[k], layout));
                assert(self.slot_wf(k, layout));
            }
            assert forall|k: int| 0 <= k < 512 && table.pdpts()[k] is Some implies (
            #[trigger] table.pdpts()[k]).unwrap().table_count()
                == self.pdpts()[k].unwrap().table_count() by {
                assert(self.slot_copied(k, entries@[k]@, pdpts@[k], layout));
                assert(self.slot_wf(k, layout));
            }
            assert forall|k: int|
                0 <= k < 512 && word_present(self.words()[k]) implies
                nth_allocation(
                runs,
                1 + self.tables_below(k),
            ) == Some(word_address(#[trigger] table.words()[k])) by {
                assert(table.words()[k] == entries@[k]@);
            }
            table.lemma_same_count(*self, 512);
            assert forall|address: u64|
                table.has_table(address) <==> taken_between(
                    runs,
                    0,
                    self.table_count(),
                    address,
                ) by {
                lemma_taken_first(runs, address);
                lemma_taken_join(runs, 0, 1, self.table_count(), address);
                assert(pdpt_among(pdpts@, 512, address) <==> taken_between(
                    runs,
                    1,
                    self.table_count(),
                    address,
                ));
                if exists|k: int| 0 <= k < 512 && #[trigger] table.child_has_table(k, address) {
                    let k = choose|k: int|
                        0 <= k < 512 && #[trigger] table.child_has_table(k, address);
                    assert(pdpt_in(pdpts@, k, address));
                }
                if taken_between(runs, 1, self.table_count(), address) {
                    let k = choose|k: int| 0 <= k < 512 && #[trigger] pdpt_in(pdpts@, k, address);
                    assert(table.child_has_table(k, address));
                }
            }
            assert forall|address: u64| #[trigger] table.has_table(address) implies frames_of(
                runs,
            ).contains(address) && !frames_of(allocator@).contains(address) by {
                crate::pmm::lemma_taken_was_free(runs, layout, 0, self.table_count(), address);
            }
        }
        table
    }
}

/// Whether two page directory pointer tables lack the same tables on the
/// way to every page.
pub open spec fn same_shape(first: Pdpt, second: Pdpt) -> bool {
    forall|i: int, j: int|
        0 <= i < 512 && 0 <= j < 512 ==> #[trigger] first.missing_tables(i, j)
            == second.missing_tables(i, j)
}

/// The level at which the walk for a virtual address ends: the level of
/// the first entry on the way that is absent or maps a huge page, or the
/// page table if the walk gets that far.
#[derive(Clone, Copy, Debug, PartialEq, Eq, Structural)]
pub enum WalkEnd {
    Pml4,
    Pdpt,
    PageDirectory,
    PageTable,
}

/// The number of 4 KiB pages of the virtual address space: 512 to the
/// fourth power.
pub const PAGE_COUNT: u64 = 0x10_0000_0000;

/// The number of a virtual page, counting the pages of the lower half and
/// then those of the higher half in the order of their addresses.
pub open spec fn page_number(virtual_address: VirtualAddress) -> int {
    ((virtual_address.pml4_index() * 512 + virtual_address.pdpt_index()) * 512
        + virtual_address.page_directory_index()) * 512 + virtual_address.page_table_index()
}

/// The pages of the address space are numbered in the order of their
/// addresses: of two canonical addresses, the one in the page with the
/// lower number is the lower address, and the address of the start of a
/// page is given by the number of the page.
pub proof fn lemma_page_numbers_follow_addresses(first: VirtualAddress, second: VirtualAddress)
    requires
        first.canonical(),
        second.canonical(),
    ensures
        page_number(first) < page_number(second) ==> first@ < second@,
        page_number(first) == page_number(second) ==> first@ - first.page_offset() == second@
            - second.page_offset(),
        0 <= page_number(first) < PAGE_COUNT,
{
    first.lemma_fields();
    second.lemma_fields();
    first.lemma_address_is_sum();
    second.lemma_address_is_sum();
    first.lemma_canonical_by_fields();
    second.lemma_canonical_by_fields();
}

impl PML4 {
    /// The level at which the walk for `virtual_address` ends.
    pub open spec fn walk_end(&self, virtual_address: VirtualAddress) -> WalkEnd {
        let pml4_index = virtual_address.pml4_index() as int;
        let pdpt_index = virtual_address.pdpt_index() as int;
        let directory_index = virtual_address.page_directory_index() as int;
        if !word_present(self.words()[pml4_index]) {
            WalkEnd::Pml4
        } else {
            let pdpt = self.pdpts()[pml4_index].unwrap();
            if !word_refers_to_table(pdpt.words()[pdpt_index]) {
                WalkEnd::Pdpt
            } else {
                let directory = pdpt.directories()[pdpt_index].unwrap();
                if !word_refers_to_table(directory.words()[directory_index]) {
                    WalkEnd::PageDirectory
                } else {
                    WalkEnd::PageTable
                }
            }
        }
    }

    /// Whether `virtual_address` is mapped by an entry of a page table.
    pub open spec fn maps_page(&self, virtual_address: VirtualAddress) -> bool {
        self.spec_translate(virtual_address) matches Some(Translation::Page(_))
    }

    /// A page is mapped by a page table only if the walk for it gets to
    /// the page table, and the tables that mapping it would have to create
    /// are those of the levels that the walk does not reach.
    pub proof fn lemma_walk_end(&self, virtual_address: VirtualAddress, layout: MemoryLayout)
        requires
            self.wf(layout),
        ensures
            self.maps_page(virtual_address)
                ==> self.walk_end(virtual_address) == WalkEnd::PageTable,
            self.spec_translate(virtual_address) is None ==> self.missing_tables(virtual_address)
                == match self.walk_end(virtual_address) {
                WalkEnd::Pml4 => 3nat,
                WalkEnd::Pdpt => 2nat,
                WalkEnd::PageDirectory => 1nat,
                WalkEnd::PageTable => 0nat,
            },
    {
        virtual_address.lemma_fields();
        let pml4_index = virtual_address.pml4_index() as int;
        let pdpt_index = virtual_address.pdpt_index() as int;
        let directory_index = virtual_address.page_directory_index() as int;
        assert(self.slot_wf(pml4_index, layout));
        if word_present(self.words()[pml4_index]) {
            let pdpt = self.pdpts()[pml4_index].unwrap();
            assert(pdpt.slot_wf(pdpt_index, layout));
            if word_refers_to_table(pdpt.words()[pdpt_index]) {
                let directory = pdpt.directories()[pdpt_index].unwrap();
                assert(directory.slot_wf(directory_index, layout));
            }
        }
    }

    /// Walks the hierarchy for `virtual_address` and answers the level at
    /// which the walk ends and what the address resolves to.
    pub fn walk(&self, virtual_address: VirtualAddress, layout: &MemoryLayout) -> (result: (
        WalkEnd,
        Option<Translation>,
    ))
        requires
            self.wf(*layout),
        ensures
            result.0 == self.walk_end(virtual_address),
            result.1 == self.spec_translate(virtual_address),
            result.1 matches Some(Translation::Page(word)) ==> frame_in_memory(
                word_address(word),
                *layout,
            ),
    {
        let pml4_index = virtual_address.pml4_index();
        let pdpt_index = virtual_address.pdpt_index();
        let directory_index = virtual_address.page_directory_index();
        let table_index = virtual_address.page_table_index();
        assert(self.slot_wf(pml4_index as int, *layout));
        if !self.entries[pml4_index].present() {
            return (WalkEnd::Pml4, None);
        }
        match &self.pdpts[pml4_index] {
            None => {
                // An entry that refers to a table owns the table.
                assert(false);
                (WalkEnd::Pml4, None)
            },
            Some(pdpt) => {
                assert(pdpt.slot_wf(pdpt_index as int, *layout));
                let pdpt_entry = pdpt.entries[pdpt_index];
                if !pdpt_entry.present() {
                    return (WalkEnd::Pdpt, None);
                }
                match pdpt_entry.get_entry() {
                    PdptEntry::HugePage(huge_page) => {
                        return (
                            WalkEnd::Pdpt,
                            Some(Translation::HugePage1G(huge_page.into_bits())),
                        );
                    },
                    PdptEntry::PageDirectory(_) => {},
                }
                match &pdpt.directories[pdpt_index] {
                    None => {
                        // An entry that refers to a table owns the table.
                        assert(false);
                        (WalkEnd::Pdpt, None)
                    },
                    Some(directory) => {
                        assert(directory.slot_wf(directory_index as int, *layout));
                        let directory_entry = directory.entries[directory_index];
                        if !directory_entry.present() {
                            return (WalkEnd::PageDirectory, None);
                        }
                        match directory_entry.get_entry() {
                            PageDirectoryEntry::HugePage(huge_page) => {
                                return (
                                    WalkEnd::PageDirectory,
                                    Some(Translation::HugePage2M(huge_page.into_bits())),
                                );
                            },
                            PageDirectoryEntry::PageTable(_) => {},
                        }
                        match &directory.tables[directory_index] {
                            None => {
                                // An entry that refers to a table owns the table.
                                assert(false);
                                (WalkEnd::PageDirectory, None)
                            },
                            Some(page_table) => {
                                let entry = page_table.entries[table_index];
                                assert(entry@ == page_table.words()[table_index as int]);
                                if entry.present() {
                                    (
                                        WalkEnd::PageTable,
                                        Some(Translation::Page(entry.into_bits())),
                                    )
                                } else {
                                    (WalkEnd::PageTable, None)
                                }
                            },
                        }
                    },
                }
            },
        }
    }

    /// What `virtual_address` resolves to.
    pub fn translate(&self, virtual_address: VirtualAddress, layout: &MemoryLayout) -> (result:
        Option<Translation>)
        requires
            self.wf(*layout),
        ensures
            result == self.spec_translate(virtual_address),
    {
        self.walk(virtual_address, layout).1
    }

    /// The number of tables that mapping the page of `virtual_address`,
    /// which must not be mapped yet, has to create.
    pub fn tables_to_create(&self, virtual_address: VirtualAddress, layout: &MemoryLayout) -> (count:
        u64)
        requires
            self.wf(*layout),
            self.spec_translate(virtual_address) is None,
        ensures
            count == self.missing_tables(virtual_address),
            count <= 3,
    {
        proof {
            self.lemma_walk_end(virtual_address, *layout);
        }
        match self.walk(virtual_address, layout).0 {
            WalkEnd::Pml4 => 3,
            WalkEnd::Pdpt => 2,
            WalkEnd::PageDirectory => 1,
            WalkEnd::PageTable => 0,
        }
    }

    /// An iterator over the pages that page tables of the hierarchy map, in
    /// the order of their addresses. It starts at virtual address zero.
    pub fn iterator<'a>(&'a self, layout: MemoryLayout) -> (iterator: PageTableIterator<'a>)
        requires
            self.wf(layout),
        ensures
            iterator.wf(),
            iterator.table() == *self,
            iterator.layout() == layout,
            iterator.position() == 0,
    {
        let current = VirtualAddress::from_fields(0, 0, 0, 0, 0, 0).unwrap();
        PageTableIterator { page_table: self, layout, current, finished: false }
    }
}

/// The enumeration of the pages that the page tables of a hierarchy map.
///
/// The iterator stands at a page of the virtual address space, or past the
/// last one. Each call of [`PageTableIterator::next`] moves it past the
/// next mapped page at or after that position.
pub struct PageTableIterator<'a> {
    page_table: &'a PML4,
    layout: MemoryLayout,
    current: VirtualAddress,
    finished: bool,
}

impl<'a> PageTableIterator<'a> {
    /// The hierarchy that is enumerated.
    pub closed spec fn table(&self) -> PML4 {
        *self.page_table
    }

    /// The memory configuration under which frames are handed out.
    pub closed spec fn layout(&self) -> MemoryLayout {
        self.layout
    }

    /// The number of the page at which the iterator stands, or the number
    /// of pages if it is past the last page.
    pub closed spec fn position(&self) -> int {
        if self.finished {
            PAGE_COUNT as int
        } else {
            page_number(self.current)
        }
    }

    /// The hierarchy is well formed and the iterator stands at the start
    /// of a page with a canonical address.
    pub closed spec fn wf(&self) -> bool {
        &&& self.page_table.wf(self.layout)
        &&& self.current.canonical()
        &&& self.current.page_offset() == 0
    }

    /// The position is a page number or the number of pages.
    pub proof fn lemma_position(&self)
        ensures
            0 <= self.position() <= PAGE_COUNT,
    {
        self.current.lemma_fields();
    }

    /// Moves to the first page of the range of the next top-level entry,
    /// or past the last page.
    fn skip_pml4(&mut self)
        requires
            old(self).wf(),
            !old(self).finished,
        ensures
            final(self).wf(),
            final(self).page_table == old(self).page_table,
            final(self).layout == old(self).layout,
            final(self).position() == (old(self).current.pml4_index() + 1) * 0x800_0000,
    {
        proof {
            self.current.lemma_fields();
        }
        let index = self.current.pml4_index();
        if index == 511 {
            self.finished = true;
        } else {
            let sign_extension: u16 = if index + 1 >= 256 {
                0xFFFF
            } else {
                0
            };
            self.current = VirtualAddress::from_fields(sign_extension, index + 1, 0, 0, 0, 0).unwrap();
        }
    }

    /// Moves to the first page of the range of the next entry of the page
    /// directory pointer table, or further if that was its last entry.
    fn skip_pdpt(&mut self)
        requires
            old(self).wf(),
            !old(self).finished,
        ensures
            final(self).wf(),
            final(self).page_table == old(self).page_table,
            final(self).layout == old(self).layout,
            final(self).position() == (old(self).current.pml4_index() * 512
                + old(self).current.pdpt_index() + 1) * 0x4_0000,
    {
        proof {
            self.current.lemma_fields();
            self.current.lemma_canonical_by_fields();
        }
        let index = self.current.pdpt_index();
        if index == 511 {
            self.skip_pml4();
        } else {
            self.current = VirtualAddress::from_fields(
                self.current.sign_extension(),
                self.current.pml4_index(),
                index + 1,
                0,
                0,
                0,
            ).unwrap();
        }
    }

    /// Moves to the first page of the range of the next entry of the page
    /// directory, or further if that was its last entry.
    fn skip_directory(&mut self)
        requires
            old(self).wf(),
            !old(self).finished,
        ensures
            final(self).wf(),
            final(self).page_table == old(self).page_table,
            final(self).layout == old(self).layout,
            final(self).position() == ((old(self).current.pml4_index() * 512
                + old(self).current.pdpt_index()) * 512 + old(self).current.page_directory_index()
                + 1) * 512,
    {
        proof {
            self.current.lemma_fields();
            self.current.lemma_canonical_by_fields();
        }
        let index = self.current.page_directory_index();
        if index == 511 {
            self.skip_pdpt();
        } else {
            self.current = VirtualAddress::from_fields(
                self.current.sign_extension(),
                self.current.pml4_index(),
                self.current.pdpt_index(),
                index + 1,
                0,
                0,
            ).unwrap();
        }
    }

    /// Moves to the next page, or past the last page.
    fn step_page(&mut self)
        requires
            old(self).wf(),
            !old(self).finished,
        ensures
            final(self).wf(),
            final(self).page_table == old(self).page_table,
            final(self).layout == old(self).layout,
            final(self).position() == old(self).position() + 1,
    {
        proof {
            self.current.lemma_fields();
            self.current.lemma_canonical_by_fields();
        }
        let index = self.current.page_table_index();
        if index == 511 {
            self.skip_directory();
        } else {
            self.current = VirtualAddress::from_fields(
                self.current.sign_extension(),
                self.current.pml4_index(),
                self.current.pdpt_index(),
                self.current.page_directory_index(),
                index + 1,
                0,
            ).unwrap();
        }
    }

    /// The next page at or after the iterator's position that a page table
    /// maps, with the frame it is mapped to, or `None` if there is no such
    /// page. Afterwards the iterator stands behind the page it answered, or
    /// past the last page.
    ///
    /// Ranges of pages below an entry that is absent or maps a huge page
    /// are passed over in one step each.
    pub fn next(&mut self) -> (item: Option<(VirtualAddress, Frame)>)
        requires
            old(self).wf(),
        ensures
            final(self).wf(),
            final(self).table() == old(self).table(),
            final(self).layout() == old(self).layout(),
            match item {
                Some((virtual_address, frame)) => {
                    &&& old(self).position() <= page_number(virtual_address) < PAGE_COUNT
                    &&& virtual_address.canonical()
                    &&& virtual_address.page_offset() == 0
                    &&& old(self).table().spec_translate(virtual_address) matches Some(
                        Translation::Page(word),
                    ) && word_address(word) == frame@
                    &&& frame.valid(old(self).layout())
                    &&& forall|other: VirtualAddress|
                        old(self).position() <= page_number(other) < page_number(virtual_address)
                            ==> !#[trigger] old(self).table().maps_page(other)
                    &&& final(self).position() == page_number(virtual_address) + 1
                },
                None => {
                    &&& forall|other: VirtualAddress|
                        old(self).position() <= page_number(other)
                            ==> !#[trigger] old(self).table().maps_page(other)
                    &&& final(self).position() == PAGE_COUNT
                },
            },
    {
        let ghost start = self.position();
        let ghost table = self.table();
        proof {
            self.lemma_position();
        }
        while !self.finished
            invariant
                self.wf(),
                self.page_table == old(self).page_table,
                self.layout == old(self).layout,
                table == *self.page_table,
                start == old(self).position(),
                start <= self.position() <= PAGE_COUNT,
                forall|other: VirtualAddress|
                    start <= page_number(other) < self.position() ==> !#[trigger] table.maps_page(
                        other,
                    ),
            decreases PAGE_COUNT - self.position(),
        {
            let current = self.current;
            let ghost here = self.position();
            proof {
                current.lemma_fields();
            }
            let (end, translation) = self.page_table.walk(current, &self.layout);
            match end {
                WalkEnd::Pml4 => {
                    self.skip_pml4();
                    proof {
                        assert forall|other: VirtualAddress|
                            here <= page_number(other) < self.position() implies
                                !#[trigger] table.maps_page(
                            other,
                        ) by {
                            other.lemma_fields();
                            assert(other.pml4_index() == current.pml4_index());
                        }
                    }
                },
                WalkEnd::Pdpt => {
                    self.skip_pdpt();
                    proof {
                        assert forall|other: VirtualAddress|
                            here <= page_number(other) < self.position() implies
                                !#[trigger] table.maps_page(
                            other,
                        ) by {
                            other.lemma_fields();
                            assert(other.pml4_index() == current.pml4_index());
                            assert(other.pdpt_index() == current.pdpt_index());
                        }
                    }
                },
                WalkEnd::PageDirectory => {
                    self.skip_directory();
                    proof {
                        assert forall|other: VirtualAddress|
                            here <= page_number(other) < self.position() implies
                                !#[trigger] table.maps_page(
                            other,
                        ) by {
                            other.lemma_fields();
                            assert(other.pml4_index() == current.pml4_index());
                            assert(other.pdpt_index() == current.pdpt_index());
                            assert(other.page_directory_index() == current.page_directory_index());
                        }
                    }
                },
                WalkEnd::PageTable => {
                    self.step_page();
                    match translation {
                        Some(Translation::Page(word)) => {
                            let entry = PageTableEntry::from_bits(word);
                            let frame = entry.frame(&self.layout);
                            return Some((current, frame));
                        },
                        _ => {
                            proof {
                                assert(!table.maps_page(current));
                                assert forall|other: VirtualAddress|
                                    here <= page_number(other)
                                        < self.position() implies !#[trigger] table.maps_page(
                                    other,
                                ) by {
                                    other.lemma_fields();
                                    assert(same_page(other, current));
                                    assert(table.spec_translate(other) == table.spec_translate(
                                        current,
                                    ));
                                }
                            }
                        },
                    }
                },
            }
        }
        proof {
            assert forall|other: VirtualAddress|
                start <= page_number(other) implies !#[trigger] table.maps_page(other) by {
                other.lemma_fields();
            }
        }
        None
    }
}

/// Whether two page tables have the same entries.
pub open spec fn page_tables_alike(first: PageTable, second: PageTable) -> bool {
    first.words() == second.words()
}

/// Whether two page directories have the same number of tables, lack the
/// same page tables and resolve every pair of indices alike.
pub open spec fn directories_alike(first: PageDirectory, second: PageDirectory) -> bool {
    &&& first.table_count() == second.table_count()
    &&& same_tables_missing(first, second)
    &&& same_directory(first, second)
}

/// Whether two page directory pointer tables have the same number of
/// tables, lack the same tables and resolve every triple of indices alike.
pub open spec fn pdpts_alike(first: Pdpt, second: Pdpt) -> bool {
    &&& first.table_count() == second.table_count()
    &&& same_shape(first, second)
    &&& same_pdpt(first, second)
}

/// Appending a page table whose tables lie in the frames that the next
/// `count` allocations hand out extends the range of allocations whose
/// frames hold the tables below the entries.
pub proof fn lemma_page_table_pushed(
    earlier: Seq<Option<PageTable>>,
    child: Option<PageTable>,
    runs: Seq<FreeRun>,
    done: nat,
    count: nat,
    address: u64,
)
    requires
        1 <= done,
        page_table_among(earlier, earlier.len() as int, address)
            <==> taken_between(runs, 1, done, address),
        child matches Some(c) ==> (c.has_table(address) <==> taken_between(
            runs_after(runs, done),
            0,
            count,
            address,
        )),
        child is None ==> count == 0,
    ensures
        page_table_among(earlier.push(child), earlier.len() as int + 1, address) <==> taken_between(
            runs,
            1,
            done + count,
            address,
        ),
{
    let after = earlier.push(child);
    let length = earlier.len() as int;
    lemma_taken_shift(runs, done, 0, count, address);
    lemma_taken_join(runs, 1, done, done + count, address);
    if page_table_among(after, length + 1, address) {
        let k = choose|k: int| 0 <= k < length + 1 && #[trigger] page_table_in(after, k, address);
        if k < length {
            assert(page_table_in(earlier, k, address));
        }
    }
    if taken_between(runs, 1, done, address) {
        let k = choose|k: int| 0 <= k < length && #[trigger] page_table_in(earlier, k, address);
        assert(page_table_in(after, k, address));
    }
    if taken_between(runs, done, done + count, address) {
        if child is Some {
            assert(page_table_in(after, length, address));
        } else {
            let k = choose|k: nat|
                done <= k < done + count && #[trigger] nth_allocation(runs, k) == Some(address);
        }
    }
}

/// Appending a page directory whose tables lie in the frames that the next
/// `count` allocations hand out extends the range of allocations whose
/// frames hold the tables below the entries.
pub proof fn lemma_directory_pushed(
    earlier: Seq<Option<PageDirectory>>,
    child: Option<PageDirectory>,
    runs: Seq<FreeRun>,
    done: nat,
    count: nat,
    address: u64,
)
    requires
        1 <= done,
        directory_among(earlier, earlier.len() as int, address)
            <==> taken_between(runs, 1, done, address),
        child matches Some(c) ==> (c.has_table(address) <==> taken_between(
            runs_after(runs, done),
            0,
            count,
            address,
        )),
        child is None ==> count == 0,
    ensures
        directory_among(earlier.push(child), earlier.len() as int + 1, address) <==> taken_between(
            runs,
            1,
            done + count,
            address,
        ),
{
    let after = earlier.push(child);
    let length = earlier.len() as int;
    lemma_taken_shift(runs, done, 0, count, address);
    lemma_taken_join(runs, 1, done, done + count, address);
    if directory_among(after, length + 1, address) {
        let k = choose|k: int| 0 <= k < length + 1 && #[trigger] directory_in(after, k, address);
        if k < length {
            assert(directory_in(earlier, k, address));
        }
    }
    if taken_between(runs, 1, done, address) {
        let k = choose|k: int| 0 <= k < length && #[trigger] directory_in(earlier, k, address);
        assert(directory_in(after, k, address));
    }
    if taken_between(runs, done, done + count, address) {
        if child is Some {
            assert(directory_in(after, length, address));
        } else {
            let k = choose|k: nat|
                done <= k < done + count && #[trigger] nth_allocation(runs, k) == Some(address);
        }
    }
}

/// Appending a page directory pointer table whose tables lie in the frames that the next
/// `count` allocations hand out extends the range of allocations whose
/// frames hold the tables below the entries.
pub proof fn lemma_pdpt_pushed(
    earlier: Seq<Option<Pdpt>>,
    child: Option<Pdpt>,
    runs: Seq<FreeRun>,
    done: nat,
    count: nat,
    address: u64,
)
    requires
        1 <= done,
        pdpt_among(earlier, earlier.len() as int, address)
            <==> taken_between(runs, 1, done, address),
        child matches Some(c) ==> (c.has_table(address) <==> taken_between(
            runs_after(runs, done),
            0,
            count,
            address,
        )),
        child is None ==> count == 0,
    ensures
        pdpt_among(earlier.push(child), earlier.len() as int + 1, address) <==> taken_between(
            runs,
            1,
            done + count,
            address,
        ),
{
    let after = earlier.push(child);
    let length = earlier.len() as int;
    lemma_taken_shift(runs, done, 0, count, address);
    lemma_taken_join(runs, 1, done, done + count, address);
    if pdpt_among(after, length + 1, address) {
        let k = choose|k: int| 0 <= k < length + 1 && #[trigger] pdpt_in(after, k, address);
        if k < length {
            assert(pdpt_in(earlier, k, address));
        }
    }
    if taken_between(runs, 1, done, address) {
        let k = choose|k: int| 0 <= k < length && #[trigger] pdpt_in(earlier, k, address);
        assert(pdpt_in(after, k, address));
    }
    if taken_between(runs, done, done + count, address) {
        if child is Some {
            assert(pdpt_in(after, length, address));
        } else {
            let k = choose|k: nat|
                done <= k < done + count && #[trigger] nth_allocation(runs, k) == Some(address);
        }
    }
}

impl PageDirectory {
    /// Puts the huge-page entry `entry` into slot `index`, which must not
    /// refer to a page table. The entry is stored as it is; nothing is
    /// allocated and no table is created.
    pub fn set_huge_page(&mut self, index: usize, entry: PageDirectoryEntryHugePage, layout: &MemoryLayout)
        requires
            old(self).wf(*layout),
            index < 512,
            !word_refers_to_table(old(self).words()[index as int]),
            entry.page_size(),
        ensures
            final(self).wf(*layout),
            final(self).frame_address() == old(self).frame_address(),
            final(self).words() == old(self).words().update(index as int, entry@),
            final(self).tables() == old(self).tables(),
            final(self).table_count() == old(self).table_count(),
            forall|address: u64| final(self).has_table(address) == old(self).has_table(address),
    {
        self.entries[index] = PageDirectoryEntryUnion::from_huge_page(entry);
        proof {
            assert(self.words() =~= old(self).words().update(index as int, entry@));
            assert forall|i: int| 0 <= i < 512 implies #[trigger] self.slot_wf(i, *layout) by {
                assert(old(self).slot_wf(i, *layout));
            }
            self.lemma_same_count(*old(self), 512);
            assert forall|address: u64| self.has_table(address) == old(self).has_table(
                address,
            ) by {
                if self.has_table(address) && address != self.frame_address() {
                    let i = choose|i: int|
                        0 <= i < 512 && #[trigger] self.child_has_table(i, address);
                    assert(old(self).child_has_table(i, address));
                }
                if old(self).has_table(address) && address != self.frame_address() {
                    let i = choose|i: int|
                        0 <= i < 512 && #[trigger] old(self).child_has_table(i, address);
                    assert(self.child_has_table(i, address));
                }
            }
        }
    }
}

impl Pdpt {
    /// Puts the huge-page entry `entry` into slot `index`, which must not
    /// refer to a page directory. The entry is stored as it is; nothing is
    /// allocated and no table is created.
    pub fn set_huge_page(&mut self, index: usize, entry: PdptEntryHugePage, layout: &MemoryLayout)
        requires
            old(self).wf(*layout),
            index < 512,
            !word_refers_to_table(old(self).words()[index as int]),
            entry.page_size(),
        ensures
            final(self).wf(*layout),
            final(self).frame_address() == old(self).frame_address(),
            final(self).words() == old(self).words().update(index as int, entry@),
            final(self).directories() == old(self).directories(),
            final(self).table_count() == old(self).table_count(),
            forall|address: u64| final(self).has_table(address) == old(self).has_table(address),
    {
        self.entries[index] = PdptEntryUnion::from_huge_page(entry);
        proof {
            assert(self.words() =~= old(self).words().update(index as int, entry@));
            assert forall|i: int| 0 <= i < 512 implies #[trigger] self.slot_wf(i, *layout) by {
                assert(old(self).slot_wf(i, *layout));
            }
            self.lemma_same_count(*old(self), 512);
            assert forall|address: u64| self.has_table(address) == old(self).has_table(
                address,
            ) by {
                if self.has_table(address) && address != self.frame_address() {
                    let i = choose|i: int|
                        0 <= i < 512 && #[trigger] self.child_has_table(i, address);
                    assert(old(self).child_has_table(i, address));
                }
                if old(self).has_table(address) && address != self.frame_address() {
                    let i = choose|i: int|
                        0 <= i < 512 && #[trigger] old(self).child_has_table(i, address);
                    assert(self.child_has_table(i, address));
                }
            }
        }
    }
}

} // verus!
