//! The physical frame allocator.
//!
//! Free memory is kept as a singly linked list of runs of contiguous free
//! pages. The list needs no storage of its own: the header of each run is
//! written into the first page of the run itself, and the pages of a run
//! are handed out from its end so that the header stays in place until the
//! run is used up.

use crate::memory::{MemoryLayout, PhysicalAddress, PAGE_SIZE};
use crate::physical_memory::PhysicalMemory;
use vstd::prelude::*;

verus! {

/// Whether the page that starts at `address` is a page frame of the physical
/// memory of `layout`: it starts on a page boundary above page zero and ends
/// inside physical memory.
pub open spec fn frame_in_memory(address: u64, layout: MemoryLayout) -> bool {
    &&& PhysicalAddress::in_range(address, layout)
    &&& address % 4096 == 0
    &&& address + PAGE_SIZE <= layout.physical_memory_size
}

/// Ownership of one 4 KiB page of physical memory, named by the address of
/// its first byte.
#[derive(Debug)]
pub struct Frame {
    starting_address: PhysicalAddress,
}

impl View for Frame {
    type V = u64;

    closed spec fn view(&self) -> u64 {
        self.starting_address@
    }
}

impl Frame {
    /// Whether the frame lies inside the physical memory of `layout`.
    pub open spec fn valid(&self, layout: MemoryLayout) -> bool {
        frame_in_memory(self@, layout)
    }

    /// The frame that starts at `physical_address`, which must be the start
    /// of a page and not null.
    pub fn from_starting_address(physical_address: PhysicalAddress) -> (frame: Self)
        requires
            physical_address.is_frame_aligned(),
            physical_address@ != 0,
        ensures
            frame@ == physical_address@,
    {
        Self { starting_address: physical_address }
    }

    /// The address of the first byte of the frame.
    pub fn get_starting_address(&self) -> (physical_address: PhysicalAddress)
        ensures
            physical_address@ == self@,
    {
        self.starting_address
    }
}

/// One region of the memory map handed over by the boot loader.
#[derive(Clone, Copy, Debug)]
pub struct MemoryMapEntry {
    /// Physical address of the first byte of the region.
    pub base: u64,
    /// Length of the region in bytes.
    pub length: u64,
    /// Whether the region is ordinary memory that the kernel may use.
    pub usable: bool,
}

/// A run of contiguous free pages: `pages` pages starting at physical
/// address `base`.
pub struct FreeRun {
    pub base: u64,
    pub pages: u64,
}

impl FreeRun {
    /// The physical address one past the last byte of the run.
    pub open spec fn end(&self) -> int {
        self.base + self.pages * 4096
    }

    /// Whether the page that starts at `address` belongs to the run.
    pub open spec fn contains(&self, address: u64) -> bool {
        self.base <= address < self.end() && address % 4096 == 0
    }

    /// A run starts on a page boundary above page zero, has at least one
    /// page, and ends inside physical memory.
    pub open spec fn wf(&self, layout: MemoryLayout) -> bool {
        &&& self.base % 4096 == 0
        &&& self.base >= PAGE_SIZE
        &&& self.pages >= 1
        &&& self.end() <= layout.physical_memory_size
    }

    /// Whether two runs have no byte in common.
    pub open spec fn disjoint(&self, other: FreeRun) -> bool {
        self.end() <= other.base || other.end() <= self.base
    }
}

/// Every run is well formed and no two runs overlap.
pub open spec fn runs_wf(runs: Seq<FreeRun>, layout: MemoryLayout) -> bool {
    &&& forall|i: int| 0 <= i < runs.len() ==> (#[trigger] runs[i]).wf(layout)
    &&& forall|i: int, j: int|
        0 <= i < j < runs.len() ==> (#[trigger] runs[i]).disjoint(#[trigger] runs[j])
}

/// The starting addresses of all pages in the runs.
pub open spec fn frames_of(runs: Seq<FreeRun>) -> Set<u64> {
    Set::new(|address: u64| exists|i: int| 0 <= i < runs.len()
        && (#[trigger] runs[i]).contains(address))
}

/// The number of pages in the runs.
pub open spec fn total_pages(runs: Seq<FreeRun>) -> nat
    decreases runs.len(),
{
    if runs.len() == 0 {
        0
    } else {
        runs[0].pages as nat + total_pages(runs.skip(1))
    }
}

/// The frame that the next allocation hands out: the last page of the
/// first run, or nothing if there is no run.
pub open spec fn next_allocation(runs: Seq<FreeRun>) -> Option<u64> {
    if runs.len() == 0 {
        None
    } else {
        Some((runs[0].base + (runs[0].pages - 1) * 4096) as u64)
    }
}

/// The runs that are left after one allocation: the first run loses its
/// last page, and disappears if that was its only one.
pub open spec fn after_allocation(runs: Seq<FreeRun>) -> Seq<FreeRun> {
    if runs.len() == 0 {
        runs
    } else if runs[0].pages == 1 {
        runs.skip(1)
    } else {
        runs.update(0, FreeRun { base: runs[0].base, pages: (runs[0].pages - 1) as u64 })
    }
}

/// A source of page frames.
pub trait FrameAllocator {
    /// The internal consistency of the allocator.
    spec fn wf(&self) -> bool;

    /// The starting addresses of the frames that are free.
    spec fn free_frames(&self) -> Set<u64>;

    /// Whether the frame at `address` is one of the frames that the
    /// allocator looks after, free or not.
    spec fn manages(&self, address: u64) -> bool;

    /// Hands out a free frame, which is then no longer free. Answers `None`
    /// exactly if no frame is free.
    fn allocate(&mut self) -> (frame: Option<Frame>)
        requires
            old(self).wf(),
        ensures
            final(self).wf(),
            match frame {
                Some(f) => old(self).free_frames().contains(f@) && final(self).free_frames()
                    == old(self).free_frames().remove(f@),
                None => old(self).free_frames() == Set::<u64>::empty() && final(self).free_frames()
                    == old(self).free_frames(),
            },
    ;

    /// Takes back a frame that the allocator looks after and that is not
    /// free. Afterwards it is free.
    fn free(&mut self, frame: Frame)
        requires
            old(self).wf(),
            old(self).manages(frame@),
            !old(self).free_frames().contains(frame@),
        ensures
            final(self).wf(),
            final(self).free_frames() == old(self).free_frames().insert(frame@),
    ;
}

/// The pointer stored for run `i` of `runs`: its direct-mapped virtual
/// address, or null if there is no such run.
pub open spec fn node_pointer(runs: Seq<FreeRun>, i: int, layout: MemoryLayout) -> u64 {
    if 0 <= i < runs.len() {
        (runs[i].base + layout.direct_map_start) as u64
    } else {
        0
    }
}

/// A frame allocator that is set up from the boot memory map.
///
/// Its view is the free list: the runs of free pages in the order in which
/// the list links them.
pub struct MemoryMapAllocator {
    /// Where physical memory is mapped, and how much of it there is.
    layout: MemoryLayout,
    /// Direct-mapped virtual address of the header of the first run, or
    /// zero if the list is empty.
    first_node: u64,
    /// The memory in which the headers live.
    memory: PhysicalMemory,
    /// The runs that the headers in memory describe.
    runs: Ghost<Seq<FreeRun>>,
}

impl View for MemoryMapAllocator {
    type V = Seq<FreeRun>;

    closed spec fn view(&self) -> Seq<FreeRun> {
        self.runs@
    }
}

impl MemoryMapAllocator {
    /// The memory configuration that the allocator was set up with.
    pub closed spec fn spec_layout(&self) -> MemoryLayout {
        self.layout
    }

    /// The two words at the start of the page at `address` in the memory
    /// that the allocator keeps its list in.
    pub closed spec fn header(&self, address: u64) -> (u64, u64) {
        self.memory.header(address)
    }

    /// The direct-mapped virtual address of the header of the first run of
    /// the list, or zero if the list is empty.
    pub closed spec fn head(&self) -> u64 {
        self.first_node
    }

    /// The number of bytes of the memory that the allocator keeps its list
    /// in.
    pub closed spec fn memory_size(&self) -> u64 {
        self.memory.size()
    }

    /// The headers in memory spell out the runs of the view: the allocator
    /// points to the header of the first run, and the header of each run
    /// holds its page count and the pointer to the next run.
    pub open spec fn linked(&self) -> bool {
        &&& self.memory_size() == self.spec_layout().physical_memory_size
        &&& self.head() == node_pointer(self@, 0, self.spec_layout())
        &&& forall|i: int| 0 <= i < self@.len() ==> #[trigger] self.header_matches(i)
    }

    /// The header of run `i` of the list holds the number of pages of the
    /// run and the pointer to the run that follows it.
    pub open spec fn header_matches(&self, i: int) -> bool {
        self.header(self@[i].base) == (
            self@[i].pages,
            node_pointer(self@, i + 1, self.spec_layout()),
        )
    }

    /// The free list is well formed and is what memory holds.
    pub open spec fn inv(&self) -> bool {
        &&& self.spec_layout().wf()
        &&& runs_wf(self@, self.spec_layout())
        &&& self.linked()
    }

    /// Whether at least `count` pages are free.
    pub fn has_free_pages(&self, count: u64) -> (enough: bool)
        requires
            self.inv(),
        ensures
            enough == (total_pages(self@) >= count),
    {
        let mut found: u64 = 0;
        let mut node: u64 = self.first_node;
        let ghost mut index: int = 0;
        proof {
            assert(self@.skip(0) =~= self@);
        }
        while node != 0 && found < count
            invariant
                self.spec_layout().wf(),
                self.linked(),
                forall|i: int|
                    0 <= i < self@.len() ==> (#[trigger] self@[i]).wf(self.spec_layout()),
                0 <= index <= self@.len(),
                node == node_pointer(self@, index, self.layout),
                found <= count,
                found < count ==> found + total_pages(self@.skip(index)) == total_pages(self@),
                found == count ==> total_pages(self@) >= count,
            decreases self@.len() - index,
        {
            assert(self@[index].wf(self.layout));
            assert(self.header_matches(index));
            let node_address: u64 = node - self.layout.direct_map_start;
            let (size, next) = self.memory.read_header(node_address);
            proof {
                assert(self@.skip(index).skip(1) =~= self@.skip(index + 1));
                assert(self@.skip(index)[0] == self@[index]);
            }
            if size >= count - found {
                found = count;
            } else {
                found = found + size;
            }
            node = next;
            proof {
                index = index + 1;
            }
        }
        proof {
            if found < count {
                assert(index == self@.len());
                assert(self@.skip(index).len() == 0);
            }
        }
        found >= count
    }

    /// The memory configuration that the allocator was set up with.
    #[verifier::when_used_as_spec(spec_layout)]
    pub fn layout(&self) -> (layout: MemoryLayout)
        ensures
            layout == self.spec_layout(),
    {
        self.layout
    }
}

/// The run of free pages that a usable region of the memory map gives: it
/// starts where the region starts and has as many pages as fit into the
/// region's length.
pub open spec fn entry_run(entry: MemoryMapEntry) -> FreeRun {
    FreeRun { base: entry.base, pages: entry.length / 4096 }
}

/// What the allocator asks of a memory map: every usable region starts on a
/// page boundary above page zero, holds at least one page and ends inside
/// physical memory, and no two usable regions overlap.
pub open spec fn memory_map_wf(map: Seq<MemoryMapEntry>, layout: MemoryLayout) -> bool {
    &&& forall|i: int| 0 <= i < map.len() && (#[trigger] map[i]).usable
        ==> entry_run(map[i]).wf(layout)
    &&& forall|i: int, j: int|
        0 <= i < j < map.len() && (#[trigger] map[i]).usable && (#[trigger] map[j]).usable
            ==> entry_run(map[i]).disjoint(entry_run(map[j]))
}

/// Whether `run` is the run of one of the first `bound` regions of `map`.
pub open spec fn stems_from(run: FreeRun, map: Seq<MemoryMapEntry>, bound: int) -> bool {
    exists|j: int| 0 <= j < bound && j < map.len() && (#[trigger] map[j]).usable
        && run == entry_run(map[j])
}

/// The free list that a memory map gives: one run for each usable region,
/// the region seen last first.
pub open spec fn runs_of(map: Seq<MemoryMapEntry>) -> Seq<FreeRun>
    decreases map.len(),
{
    if map.len() == 0 {
        Seq::empty()
    } else if map.last().usable {
        seq![entry_run(map.last())] + runs_of(map.drop_last())
    } else {
        runs_of(map.drop_last())
    }
}

/// The number of pages in the usable regions of a memory map.
pub open spec fn usable_pages(map: Seq<MemoryMapEntry>) -> nat
    decreases map.len(),
{
    if map.len() == 0 {
        0
    } else if map.last().usable {
        (map.last().length / 4096) as nat + usable_pages(map.drop_last())
    } else {
        usable_pages(map.drop_last())
    }
}

/// Whether a usable region gives a well-formed run.
fn region_fits(entry: &MemoryMapEntry, layout: &MemoryLayout) -> (fits: bool)
    ensures
        fits == entry_run(*entry).wf(*layout),
{
    let length: u64 = entry.length;
    assert(length >> 12 == length / 4096) by (bit_vector);
    assert((length >> 12) * 4096 <= length) by (bit_vector);
    let pages: u64 = length >> 12;
    entry.base % 4096 == 0 && entry.base >= PAGE_SIZE && pages >= 1 && entry.base
        <= layout.physical_memory_size && pages * 4096 <= layout.physical_memory_size - entry.base
}

/// Whether the runs of two well-formed usable regions have no byte in
/// common.
fn regions_apart(first: &MemoryMapEntry, second: &MemoryMapEntry, layout: &MemoryLayout) -> (apart:
    bool)
    requires
        entry_run(*first).wf(*layout),
        entry_run(*second).wf(*layout),
    ensures
        apart == entry_run(*first).disjoint(entry_run(*second)),
{
    let first_length: u64 = first.length;
    let second_length: u64 = second.length;
    assert(first_length >> 12 == first_length / 4096) by (bit_vector);
    assert(second_length >> 12 == second_length / 4096) by (bit_vector);
    let first_end: u64 = first.base + (first_length >> 12) * 4096;
    let second_end: u64 = second.base + (second_length >> 12) * 4096;
    first_end <= second.base || second_end <= first.base
}

impl MemoryMapAllocator {
    /// Whether an allocator can be built from `memory_map` under `layout`:
    /// the layout is well formed, the memory it describes can be held, and
    /// the usable regions of the map are well formed and do not overlap.
    pub fn accepts(memory_map: &[MemoryMapEntry], layout: &MemoryLayout) -> (accepted: bool)
        ensures
            accepted == (layout.wf() && memory_map_wf(memory_map@, *layout)
                && layout.physical_memory_size / 8 <= usize::MAX),
    {
        if MemoryLayout::new(layout.direct_map_start, layout.physical_memory_size).is_none() {
            return false;
        }
        if layout.physical_memory_size / 8 > usize::MAX as u64 {
            return false;
        }
        let mut i: usize = 0;
        while i < memory_map.len()
            invariant
                i <= memory_map.len(),
                memory_map_wf(memory_map@.take(i as int), *layout),
            decreases memory_map.len() - i,
        {
            let ghost checked = memory_map@.take(i as int);
            let ghost extended = memory_map@.take(i + 1);
            if memory_map[i].usable {
                if !region_fits(&memory_map[i], layout) {
                    return false;
                }
                let mut j: usize = 0;
                while j < i
                    invariant
                        j <= i < memory_map.len(),
                        memory_map@[i as int].usable,
                        entry_run(memory_map@[i as int]).wf(*layout),
                        memory_map_wf(memory_map@.take(i as int), *layout),
                        forall|k: int|
                            0 <= k < j && (#[trigger] memory_map@[k]).usable ==> entry_run(
                                memory_map@[k],
                            ).disjoint(entry_run(memory_map@[i as int])),
                    decreases i - j,
                {
                    if memory_map[j].usable {
                        assert(memory_map@.take(i as int)[j as int] == memory_map@[j as int]);
                        if !regions_apart(&memory_map[j], &memory_map[i], layout) {
                            return false;
                        }
                    }
                    j += 1;
                }
            }
            proof {
                assert forall|k: int|
                    0 <= k < extended.len() && (#[trigger] extended[k]).usable implies
                    entry_run(
                    extended[k],
                ).wf(*layout) by {
                    if k < i {
                        assert(checked[k] == extended[k]);
                    }
                }
                assert forall|k: int, l: int|
                    0 <= k < l < extended.len() && (#[trigger] extended[k]).usable && (
                    #[trigger] extended[l]).usable implies entry_run(extended[k]).disjoint(
                    entry_run(extended[l]),
                ) by {
                    if l < i {
                        assert(checked[k] == extended[k]);
                        assert(checked[l] == extended[l]);
                    }
                }
            }
            i += 1;
        }
        assert(memory_map@.take(memory_map@.len() as int) =~= memory_map@);
        true
    }

    /// Builds the free list from the boot memory map: the header of each
    /// usable region is written into the first page of the region and
    /// linked in front of the regions seen before it.
    pub fn new(memory_map: &[MemoryMapEntry], layout: MemoryLayout) -> (allocator: Self)
        requires
            layout.wf(),
            memory_map_wf(memory_map@, layout),
            layout.physical_memory_size / 8 <= usize::MAX,
        ensures
            allocator.inv(),
            allocator@ == runs_of(memory_map@),
            allocator.spec_layout() == layout,
    {
        let mut allocator = MemoryMapAllocator {
            layout,
            first_node: 0,
            memory: PhysicalMemory::new(layout.physical_memory_size),
            runs: Ghost(Seq::empty()),
        };
        let mut index: usize = 0;
        assert(memory_map@.take(0) =~= Seq::empty());
        while index < memory_map.len()
            invariant
                index <= memory_map.len(),
                layout.wf(),
                memory_map_wf(memory_map@, layout),
                allocator.inv(),
                allocator.layout == layout,
                allocator@ == runs_of(memory_map@.take(index as int)),
                forall|k: int|
                    0 <= k < allocator@.len() ==> stems_from(
                        #[trigger] allocator@[k],
                        memory_map@,
                        index as int,
                    ),
            decreases memory_map.len() - index,
        {
            let entry = memory_map[index];
            let ghost runs = allocator@;
            assert(memory_map@.take(index + 1).drop_last() =~= memory_map@.take(index as int));
            assert(memory_map@.take(index + 1).last() == entry);
            if entry.usable {
                let physical_address: u64 = entry.base;
                let length: u64 = entry.length;
                assert(length >> 12 == length / 4096) by (bit_vector);
                let size: u64 = length >> 12;
                let ghost run = entry_run(entry);
                assert(run.wf(layout));
                assert forall|k: int| 0 <= k < runs.len() implies run.disjoint(
                    #[trigger] runs[k],
                ) by {
                    assert(stems_from(runs[k], memory_map@, index as int));
                    let j = choose|j: int|
                        0 <= j < index && (#[trigger] memory_map@[j]).usable && runs[k]
                            == entry_run(memory_map@[j]);
                    assert(entry_run(memory_map@[j]).disjoint(entry_run(memory_map@[index as int])));
                }
                allocator.push_run(physical_address, size);
                proof {
                    let after = allocator@;
                    assert(after[0] == run);
                    assert forall|k: int| 0 <= k < after.len() implies stems_from(
                        #[trigger] after[k],
                        memory_map@,
                        index + 1,
                    ) by {
                        if k == 0 {
                            assert(memory_map@[index as int].usable);
                        } else {
                            assert(after[k] == runs[k - 1]);
                            assert(stems_from(runs[k - 1], memory_map@, index as int));
                            let j = choose|j: int|
                                0 <= j < index && (#[trigger] memory_map@[j]).usable && runs[k - 1]
                                    == entry_run(memory_map@[j]);
                            assert(memory_map@[j].usable);
                        }
                    }
                }
            } else {
                assert forall|k: int| 0 <= k < runs.len() implies stems_from(
                    #[trigger] runs[k],
                    memory_map@,
                    index + 1,
                ) by {
                    assert(stems_from(runs[k], memory_map@, index as int));
                    let j = choose|j: int|
                        0 <= j < index && (#[trigger] memory_map@[j]).usable && runs[k]
                            == entry_run(memory_map@[j]);
                    assert(memory_map@[j].usable);
                }
            }
            index += 1;
        }
        assert(memory_map@.take(memory_map@.len() as int) =~= memory_map@);
        allocator
    }
}

/// Taking the last page of the first run removes exactly that page from the
/// set of free frames and leaves a well-formed list.
pub proof fn lemma_allocation(runs: Seq<FreeRun>, layout: MemoryLayout)
    requires
        runs_wf(runs, layout),
        runs.len() > 0,
    ensures
        runs_wf(after_allocation(runs), layout),
        frames_of(runs).contains(next_allocation(runs).unwrap()),
        frames_of(after_allocation(runs)) == frames_of(runs).remove(next_allocation(runs).unwrap()),
        next_allocation(runs).unwrap() == runs[0].base + (runs[0].pages - 1) * 4096,
        PhysicalAddress::in_range(next_allocation(runs).unwrap(), layout),
        next_allocation(runs).unwrap() % 4096 == 0,
        next_allocation(runs).unwrap() + PAGE_SIZE <= layout.physical_memory_size,
{
    let first = runs[0];
    let after = after_allocation(runs);
    let taken = next_allocation(runs).unwrap();
    assert(first.wf(layout));
    assert(first.contains(taken));
    assert forall|address: u64|
        frames_of(after).contains(address) <==> frames_of(runs).remove(taken).contains(
            address,
        ) by {
        if frames_of(after).contains(address) {
            let i = choose|i: int| 0 <= i < after.len() && (#[trigger] after[i]).contains(address);
            if first.pages == 1 {
                assert(after[i] == runs[i + 1]);
                assert(runs[i + 1].contains(address));
                assert(runs[0].disjoint(runs[i + 1]));
            } else {
                if i == 0 {
                    assert(runs[0].contains(address));
                } else {
                    assert(after[i] == runs[i]);
                    assert(runs[i].contains(address));
                    assert(runs[0].disjoint(runs[i]));
                }
            }
        }
        if frames_of(runs).remove(taken).contains(address) {
            let i = choose|i: int| 0 <= i < runs.len() && (#[trigger] runs[i]).contains(address);
            if first.pages == 1 {
                assert(i != 0);
                assert(after[i - 1] == runs[i]);
                assert(after[i - 1].contains(address));
            } else {
                if i == 0 {
                    assert(after[0].contains(address));
                } else {
                    assert(after[i] == runs[i]);
                    assert(after[i].contains(address));
                }
            }
        }
    }
    assert(frames_of(after) =~= frames_of(runs).remove(taken));
    assert forall|i: int| 0 <= i < after.len() implies (#[trigger] after[i]).wf(layout) by {
        if first.pages == 1 {
            assert(after[i] == runs[i + 1]);
        } else if i > 0 {
            assert(after[i] == runs[i]);
        }
    }
    assert forall|i: int, j: int| 0 <= i < j < after.len() implies (#[trigger] after[i]).disjoint(
        #[trigger] after[j],
    ) by {
        if first.pages == 1 {
            assert(after[i] == runs[i + 1]);
            assert(after[j] == runs[j + 1]);
        } else {
            assert(after[j] == runs[j]);
            assert(runs[i].disjoint(runs[j]));
        }
    }
}

/// The free list after `count` allocations in a row.
pub open spec fn runs_after(runs: Seq<FreeRun>, count: nat) -> Seq<FreeRun>
    decreases count,
{
    if count == 0 {
        runs
    } else {
        after_allocation(runs_after(runs, (count - 1) as nat))
    }
}

/// What the allocation that follows `count` earlier ones hands out.
pub open spec fn nth_allocation(runs: Seq<FreeRun>, count: nat) -> Option<u64> {
    next_allocation(runs_after(runs, count))
}

/// How many of the first `count` allocations in a row hand out a frame.
pub open spec fn successes(runs: Seq<FreeRun>, count: nat) -> nat
    decreases count,
{
    if count == 0 {
        0
    } else {
        successes(runs, (count - 1) as nat) + if nth_allocation(runs, (count - 1) as nat) is Some {
            1nat
        } else {
            0nat
        }
    }
}

/// The free list built from a memory map holds as many pages as the usable
/// regions of the map.
pub proof fn lemma_new_total_pages(map: Seq<MemoryMapEntry>)
    ensures
        total_pages(runs_of(map)) == usable_pages(map),
    decreases map.len(),
{
    if map.len() > 0 {
        lemma_new_total_pages(map.drop_last());
        if map.last().usable {
            let runs = runs_of(map);
            assert(runs.skip(1) =~= runs_of(map.drop_last()));
        }
    }
}

/// An allocation that hands out a frame takes one page off the free list,
/// and one that hands out none leaves the list as it is.
pub proof fn lemma_allocation_total_pages(runs: Seq<FreeRun>, layout: MemoryLayout)
    requires
        runs_wf(runs, layout),
    ensures
        next_allocation(runs) is Some ==> total_pages(after_allocation(runs)) + 1 == total_pages(
            runs,
        ),
        next_allocation(runs) is None ==> after_allocation(runs) == runs && total_pages(runs) == 0,
{
    if runs.len() > 0 {
        assert(runs[0].wf(layout));
        if runs[0].pages > 1 {
            let after = after_allocation(runs);
            assert(after.skip(1) =~= runs.skip(1));
        }
    }
}

/// A list stays well formed through any number of allocations, and its set
/// of free frames only shrinks.
pub proof fn lemma_runs_after(runs: Seq<FreeRun>, layout: MemoryLayout, count: nat)
    requires
        runs_wf(runs, layout),
    ensures
        runs_wf(runs_after(runs, count), layout),
        frames_of(runs_after(runs, count)).subset_of(frames_of(runs)),
    decreases count,
{
    if count > 0 {
        let earlier = runs_after(runs, (count - 1) as nat);
        lemma_runs_after(runs, layout, (count - 1) as nat);
        if earlier.len() > 0 {
            lemma_allocation(earlier, layout);
        }
    }
}

/// Counting the allocations of either order together.
proof fn lemma_runs_after_split(runs: Seq<FreeRun>, first: nat, second: nat)
    ensures
        runs_after(runs, first + second) == runs_after(runs_after(runs, first), second),
    decreases second,
{
    if second > 0 {
        lemma_runs_after_split(runs, first, (second - 1) as nat);
        assert(first + second - 1 == first + (second - 1));
    }
}

/// After any number of allocations the free list holds as many pages fewer
/// as allocations handed out a frame.
pub proof fn lemma_pages_after_allocations(runs: Seq<FreeRun>, layout: MemoryLayout, count: nat)
    requires
        runs_wf(runs, layout),
    ensures
        total_pages(runs_after(runs, count)) + successes(runs, count) == total_pages(runs),
    decreases count,
{
    if count > 0 {
        lemma_pages_after_allocations(runs, layout, (count - 1) as nat);
        lemma_runs_after(runs, layout, (count - 1) as nat);
        lemma_allocation_total_pages(runs_after(runs, (count - 1) as nat), layout);
    }
}

/// No frame is handed out twice: two allocations of one row of allocations
/// that both hand out a frame hand out different frames.
pub proof fn lemma_allocations_distinct(
    runs: Seq<FreeRun>,
    layout: MemoryLayout,
    earlier: nat,
    later: nat,
)
    requires
        runs_wf(runs, layout),
        earlier < later,
        nth_allocation(runs, earlier) is Some,
        nth_allocation(runs, later) is Some,
    ensures
        nth_allocation(runs, earlier) != nth_allocation(runs, later),
{
    let before = runs_after(runs, earlier);
    let after = runs_after(runs, earlier + 1);
    let gap = (later - earlier - 1) as nat;
    lemma_runs_after(runs, layout, earlier);
    lemma_allocation(before, layout);
    lemma_runs_after_split(runs, earlier + 1, gap);
    lemma_runs_after(after, layout, gap);
    let last = runs_after(runs, later);
    assert(last == runs_after(after, gap));
    lemma_runs_after(runs, layout, later);
    lemma_allocation(last, layout);
    assert(frames_of(last).contains(nth_allocation(runs, later).unwrap()));
    assert(frames_of(after).contains(nth_allocation(runs, later).unwrap()));
}

/// Once an allocation hands out nothing, every later one hands out nothing
/// either.
pub proof fn lemma_exhaustion_is_final(runs: Seq<FreeRun>, earlier: nat, later: nat)
    requires
        earlier <= later,
        nth_allocation(runs, earlier) is None,
    ensures
        nth_allocation(runs, later) is None,
        runs_after(runs, later) == runs_after(runs, earlier),
    decreases later,
{
    if earlier < later {
        lemma_exhaustion_is_final(runs, earlier, (later - 1) as nat);
    }
}

/// Allocations counted from a later point of a row of allocations are the
/// later allocations of the row.
pub proof fn lemma_allocation_shift(runs: Seq<FreeRun>, first: nat, second: nat)
    ensures
        runs_after(runs_after(runs, first), second) == runs_after(runs, first + second),
        nth_allocation(runs_after(runs, first), second) == nth_allocation(runs, first + second),
{
    lemma_runs_after_split(runs, first, second);
}

/// A row of `count` allocations takes at most `count` pages off the list.
pub proof fn lemma_pages_left(runs: Seq<FreeRun>, layout: MemoryLayout, count: nat)
    requires
        runs_wf(runs, layout),
    ensures
        total_pages(runs_after(runs, count)) + count >= total_pages(runs),
        runs_wf(runs_after(runs, count), layout),
        total_pages(runs) >= count ==> total_pages(runs_after(runs, count)) + count == total_pages(
            runs,
        ),
    decreases count,
{
    lemma_runs_after(runs, layout, count);
    if count > 0 {
        let earlier = runs_after(runs, (count - 1) as nat);
        lemma_pages_left(runs, layout, (count - 1) as nat);
        lemma_allocation_total_pages(earlier, layout);
    }
}

/// Whether one of the allocations numbered `from` up to, but not including,
/// `to` of a row of allocations from `runs` hands out the frame at
/// `address`.
pub open spec fn taken_between(runs: Seq<FreeRun>, from: nat, to: nat, address: u64) -> bool {
    exists|k: nat| from <= k < to && #[trigger] nth_allocation(runs, k) == Some(address)
}

/// A frame is taken in a range of allocations exactly if it is taken in one
/// of two ranges that make up the range.
pub proof fn lemma_taken_join(runs: Seq<FreeRun>, from: nat, middle: nat, to: nat, address: u64)
    requires
        from <= middle <= to,
    ensures
        taken_between(runs, from, to, address) <==> taken_between(runs, from, middle, address)
            || taken_between(runs, middle, to, address),
{
    if taken_between(runs, from, to, address) {
        let k = choose|k: nat|
            from <= k < to && #[trigger] nth_allocation(runs, k) == Some(address);
        if k < middle {
            assert(taken_between(runs, from, middle, address));
        } else {
            assert(taken_between(runs, middle, to, address));
        }
    }
    if taken_between(runs, from, middle, address) {
        let k = choose|k: nat|
            from <= k < middle && #[trigger] nth_allocation(runs, k) == Some(address);
        assert(from <= k < to && nth_allocation(runs, k) == Some(address));
    }
    if taken_between(runs, middle, to, address) {
        let k = choose|k: nat|
            middle <= k < to && #[trigger] nth_allocation(runs, k) == Some(address);
        assert(from <= k < to && nth_allocation(runs, k) == Some(address));
    }
}

/// A frame is taken by the allocations that follow `first` earlier ones
/// exactly if it is taken by the allocations of the whole row that are
/// numbered from `first` on.
pub proof fn lemma_taken_shift(
    runs: Seq<FreeRun>,
    first: nat,
    from: nat,
    to: nat,
    address: u64,
)
    ensures
        taken_between(runs_after(runs, first), from, to, address) <==> taken_between(
            runs,
            first + from,
            first + to,
            address,
        ),
{
    let later = runs_after(runs, first);
    if taken_between(later, from, to, address) {
        let k = choose|k: nat|
            from <= k < to && #[trigger] nth_allocation(later, k) == Some(address);
        lemma_allocation_shift(runs, first, k);
        assert(nth_allocation(runs, first + k) == Some(address));
    }
    if taken_between(runs, first + from, first + to, address) {
        let k = choose|k: nat|
            first + from <= k < first + to && #[trigger] nth_allocation(runs, k) == Some(address);
        let shifted = (k - first) as nat;
        lemma_allocation_shift(runs, first, shifted);
        assert(nth_allocation(later, shifted) == Some(address));
    }
}

/// The first of a row of allocations is the next allocation, and a single
/// allocation takes exactly the frame it hands out.
pub proof fn lemma_taken_first(runs: Seq<FreeRun>, address: u64)
    ensures
        !taken_between(runs, 0, 0, address),
        taken_between(runs, 0, 1, address) <==> next_allocation(runs) == Some(address),
        runs_after(runs, 0) == runs,
        runs_after(runs, 1) == after_allocation(runs),
{
    assert(runs_after(runs, 1) == after_allocation(runs_after(runs, 0)));
    if next_allocation(runs) == Some(address) {
        assert(nth_allocation(runs, 0) == Some(address));
    }
}

/// A list with at least one page has at least one run.
pub proof fn lemma_pages_mean_runs(runs: Seq<FreeRun>)
    ensures
        total_pages(runs) > 0 ==> runs.len() > 0,
{
}

/// A frame that a row of allocations hands out was free before the row and
/// is no longer free after it.
pub proof fn lemma_taken_was_free(
    runs: Seq<FreeRun>,
    layout: MemoryLayout,
    from: nat,
    to: nat,
    address: u64,
)
    requires
        runs_wf(runs, layout),
        taken_between(runs, from, to, address),
    ensures
        frames_of(runs).contains(address),
        !frames_of(runs_after(runs, to)).contains(address),
        frame_in_memory(address, layout),
{
    let k = choose|k: nat| from <= k < to && #[trigger] nth_allocation(runs, k) == Some(address);
    let before = runs_after(runs, k);
    let after = runs_after(runs, k + 1);
    lemma_runs_after(runs, layout, k);
    lemma_allocation(before, layout);
    assert(after == after_allocation(before));
    let rest = (to - k - 1) as nat;
    lemma_runs_after(after, layout, rest);
    lemma_allocation_shift(runs, k + 1, rest);
}

/// Whether the page at `address` lies directly behind `run` or directly
/// before it.
pub open spec fn touches(run: FreeRun, address: u64) -> bool {
    run.end() == address || address + 4096 == run.base
}

/// The index of the first run from index `from` on that the page at
/// `address` touches, or the number of runs if it touches none of them.
pub open spec fn first_touching(runs: Seq<FreeRun>, address: u64, from: int) -> int
    decreases runs.len() - from,
{
    if from >= runs.len() {
        runs.len() as int
    } else if 0 <= from && touches(runs[from], address) {
        from
    } else {
        first_touching(runs, address, from + 1)
    }
}

/// The free list after the page at `address` was given back.
///
/// The page joins the first run of the list that it touches. If it lies
/// directly behind that run, the run grows by the page, and if the page
/// closes the gap to the run that follows in the list, the two runs become
/// one. If it lies directly before the run, the run starts at the page from
/// then on. If the page touches no run, it becomes a run of its own at the
/// front of the list.
pub open spec fn after_free(runs: Seq<FreeRun>, address: u64) -> Seq<FreeRun> {
    let i = first_touching(runs, address, 0);
    if i >= runs.len() {
        seq![FreeRun { base: address, pages: 1 }] + runs
    } else if runs[i].end() == address {
        if i + 1 < runs.len() && runs[i + 1].base == address + 4096 {
            runs.update(
                i,
                FreeRun {
                    base: runs[i].base,
                    pages: (runs[i].pages + 1 + runs[i + 1].pages) as u64,
                },
            ).remove(i + 1)
        } else {
            runs.update(i, FreeRun { base: runs[i].base, pages: (runs[i].pages + 1) as u64 })
        }
    } else {
        runs.update(i, FreeRun { base: address, pages: (runs[i].pages + 1) as u64 })
    }
}

/// The first run that a page touches is in the list, is touched, and no
/// run before it is.
pub proof fn lemma_first_touching(runs: Seq<FreeRun>, address: u64, from: int)
    requires
        0 <= from <= runs.len(),
    ensures
        from <= first_touching(runs, address, from) <= runs.len(),
        first_touching(runs, address, from) < runs.len() ==> touches(
            runs[first_touching(runs, address, from)],
            address,
        ),
        forall|k: int|
            from <= k < first_touching(runs, address, from)
                ==> !touches(#[trigger] runs[k], address),
    decreases runs.len() - from,
{
    if from < runs.len() && !touches(runs[from], address) {
        lemma_first_touching(runs, address, from + 1);
    }
}

/// If the page touches none of the runs before index `to`, the first run
/// that it touches is the first from `to` on.
pub proof fn lemma_first_touching_from(runs: Seq<FreeRun>, address: u64, from: int, to: int)
    requires
        0 <= from <= to <= runs.len(),
        forall|k: int| from <= k < to ==> !touches(#[trigger] runs[k], address),
    ensures
        first_touching(runs, address, from) == first_touching(runs, address, to),
    decreases to - from,
{
    if from < to {
        assert(!touches(runs[from], address));
        lemma_first_touching_from(runs, address, from + 1, to);
    }
}

/// A page that is not part of a run lies wholly before it or wholly behind
/// it.
pub proof fn lemma_page_apart(run: FreeRun, layout: MemoryLayout, address: u64)
    requires
        run.wf(layout),
        address % 4096 == 0,
        !run.contains(address),
    ensures
        address + 4096 <= run.base || run.end() <= address,
{
}

/// Giving back a page that is not free leaves a well-formed list whose
/// free frames are those of before and the page.
pub proof fn lemma_free(runs: Seq<FreeRun>, layout: MemoryLayout, address: u64)
    requires
        runs_wf(runs, layout),
        frame_in_memory(address, layout),
        !frames_of(runs).contains(address),
    ensures
        runs_wf(after_free(runs, address), layout),
        frames_of(after_free(runs, address)) == frames_of(runs).insert(address),
{
    let after = after_free(runs, address);
    let i = first_touching(runs, address, 0);
    lemma_first_touching(runs, address, 0);
    assert forall|k: int| 0 <= k < runs.len() implies address + 4096 <= (#[trigger] runs[k]).base
        || runs[k].end() <= address by {
        assert(runs[k].wf(layout));
        lemma_page_apart(runs[k], layout, address);
    }
    if i >= runs.len() {
        let single = FreeRun { base: address, pages: 1 };
        assert(after[0] == single);
        assert forall|k: int| 0 <= k < after.len() implies (#[trigger] after[k]).wf(layout) by {
            if k > 0 {
                assert(after[k] == runs[k - 1]);
            }
        }
        assert forall|k: int, l: int|
            0 <= k < l < after.len() implies
            (#[trigger] after[k]).disjoint(
            #[trigger] after[l],
        ) by {
            assert(after[l] == runs[l - 1]);
            if k > 0 {
                assert(after[k] == runs[k - 1]);
            }
        }
        assert forall|x: u64| frames_of(after).contains(x) <==> frames_of(runs).insert(
            address,
        ).contains(x) by {
            if frames_of(after).contains(x) {
                let k = choose|k: int| 0 <= k < after.len() && (#[trigger] after[k]).contains(x);
                if k > 0 {
                    assert(after[k] == runs[k - 1]);
                    assert(runs[k - 1].contains(x));
                }
            }
            if frames_of(runs).contains(x) {
                let k = choose|k: int| 0 <= k < runs.len() && (#[trigger] runs[k]).contains(x);
                assert(after[k + 1] == runs[k]);
                assert(after[k + 1].contains(x));
            }
            if x == address {
                assert(after[0].contains(x));
            }
        }
        assert(frames_of(after) =~= frames_of(runs).insert(address));
    } else {
        let touched = runs[i];
        assert(touched.wf(layout));
        if touched.end() == address && i + 1 < runs.len() && runs[i + 1].base == address + 4096 {
            let next = runs[i + 1];
            assert(next.wf(layout));
            let merged = FreeRun {
                base: touched.base,
                pages: (touched.pages + 1 + next.pages) as u64,
            };
            assert(merged.end() == next.end());
            assert(after.len() == runs.len() - 1);
            assert forall|k: int| 0 <= k < after.len() implies #[trigger] after[k] == (if k < i {
                runs[k]
            } else if k == i {
                merged
            } else {
                runs[k + 1]
            }) by {}
            assert forall|k: int| 0 <= k < after.len() implies (#[trigger] after[k]).wf(layout) by {
                if k < i {
                    assert(runs[k].wf(layout));
                } else if k > i {
                    assert(runs[k + 1].wf(layout));
                }
            }
            assert forall|k: int, l: int| 0 <= k < l < after.len() implies (
            #[trigger] after[k]).disjoint(#[trigger] after[l]) by {
                let from = if k < i {
                    k
                } else {
                    k + 1
                };
                let to = if l < i {
                    l
                } else {
                    l + 1
                };
                if k == i {
                    assert(runs[i].disjoint(runs[to]));
                    assert(runs[i + 1].disjoint(runs[to]));
                    assert(runs[to].wf(layout));
                } else if l == i {
                    assert(runs[from].disjoint(runs[i]));
                    assert(runs[from].disjoint(runs[i + 1]));
                    assert(runs[from].wf(layout));
                } else {
                    assert(runs[from].disjoint(runs[to]));
                }
            }
            assert forall|x: u64| frames_of(after).contains(x) <==> frames_of(runs).insert(
                address,
            ).contains(x) by {
                if frames_of(after).contains(x) {
                    let k = choose|k: int|
                        0 <= k < after.len() && (#[trigger] after[k]).contains(x);
                    if k < i {
                        assert(runs[k].contains(x));
                    } else if k > i {
                        assert(runs[k + 1].contains(x));
                    } else {
                        if x != address {
                            if x < address {
                                assert(runs[i].contains(x));
                            } else {
                                assert(runs[i + 1].contains(x));
                            }
                        }
                    }
                }
                if frames_of(runs).contains(x) {
                    let k = choose|k: int| 0 <= k < runs.len() && (#[trigger] runs[k]).contains(x);
                    if k < i {
                        assert(after[k].contains(x));
                    } else if k > i + 1 {
                        assert(after[k - 1].contains(x));
                    } else {
                        assert(after[i].contains(x));
                    }
                }
                if x == address {
                    assert(after[i].contains(x));
                }
            }
            assert(frames_of(after) =~= frames_of(runs).insert(address));
        } else {
            let grown = if touched.end() == address {
                FreeRun { base: touched.base, pages: (touched.pages + 1) as u64 }
            } else {
                FreeRun { base: address, pages: (touched.pages + 1) as u64 }
            };
            assert(after == runs.update(i, grown));
            assert(grown.wf(layout));
            assert forall|k: int| 0 <= k < after.len() implies (#[trigger] after[k]).wf(layout) by {
                if k != i {
                    assert(runs[k].wf(layout));
                }
            }
            assert forall|k: int, l: int| 0 <= k < l < after.len() implies (
            #[trigger] after[k]).disjoint(#[trigger] after[l]) by {
                assert(runs[k].disjoint(runs[l]));
                assert(runs[k].wf(layout));
                assert(runs[l].wf(layout));
            }
            assert forall|x: u64| frames_of(after).contains(x) <==> frames_of(runs).insert(
                address,
            ).contains(x) by {
                if frames_of(after).contains(x) {
                    let k = choose|k: int|
                        0 <= k < after.len() && (#[trigger] after[k]).contains(x);
                    if k != i {
                        assert(runs[k].contains(x));
                    } else if x != address {
                        assert(runs[i].contains(x));
                    }
                }
                if frames_of(runs).contains(x) {
                    let k = choose|k: int| 0 <= k < runs.len() && (#[trigger] runs[k]).contains(x);
                    if k != i {
                        assert(after[k] == runs[k]);
                    }
                    assert(after[k].contains(x));
                }
                if x == address {
                    assert(after[i].contains(x));
                }
            }
            assert(frames_of(after) =~= frames_of(runs).insert(address));
        }
    }
}

/// Replacing a run of the list changes the number of pages by the
/// difference of the two runs.
pub proof fn lemma_total_pages_update(runs: Seq<FreeRun>, i: int, run: FreeRun)
    requires
        0 <= i < runs.len(),
    ensures
        total_pages(runs.update(i, run)) + runs[i].pages == total_pages(runs) + run.pages,
    decreases runs.len(),
{
    let after = runs.update(i, run);
    if i == 0 {
        assert(after.skip(1) =~= runs.skip(1));
    } else {
        assert(after.skip(1) =~= runs.skip(1).update(i - 1, run));
        lemma_total_pages_update(runs.skip(1), i - 1, run);
    }
}

/// Taking a run out of the list takes its pages off the number of pages.
pub proof fn lemma_total_pages_remove(runs: Seq<FreeRun>, i: int)
    requires
        0 <= i < runs.len(),
    ensures
        total_pages(runs.remove(i)) + runs[i].pages == total_pages(runs),
    decreases runs.len(),
{
    let after = runs.remove(i);
    if i == 0 {
        assert(after =~= runs.skip(1));
    } else {
        assert(after.skip(1) =~= runs.skip(1).remove(i - 1));
        assert(after[0] == runs[0]);
        lemma_total_pages_remove(runs.skip(1), i - 1);
    }
}

/// Giving back a page adds one page to the list.
pub proof fn lemma_free_total_pages(runs: Seq<FreeRun>, layout: MemoryLayout, address: u64)
    requires
        runs_wf(runs, layout),
        frame_in_memory(address, layout),
        !frames_of(runs).contains(address),
    ensures
        total_pages(after_free(runs, address)) == total_pages(runs) + 1,
{
    let after = after_free(runs, address);
    let i = first_touching(runs, address, 0);
    lemma_first_touching(runs, address, 0);
    if i >= runs.len() {
        assert(after.skip(1) =~= runs);
    } else {
        assert(runs[i].wf(layout));
        if runs[i].end() == address && i + 1 < runs.len() && runs[i + 1].base == address + 4096 {
            assert(runs[i + 1].wf(layout));
            let merged = FreeRun {
                base: runs[i].base,
                pages: (runs[i].pages + 1 + runs[i + 1].pages) as u64,
            };
            let updated = runs.update(i, merged);
            lemma_total_pages_update(runs, i, merged);
            lemma_total_pages_remove(updated, i + 1);
        } else if runs[i].end() == address {
            lemma_total_pages_update(
                runs,
                i,
                FreeRun { base: runs[i].base, pages: (runs[i].pages + 1) as u64 },
            );
        } else {
            lemma_total_pages_update(
                runs,
                i,
                FreeRun { base: address, pages: (runs[i].pages + 1) as u64 },
            );
        }
    }
}

impl FrameAllocator for MemoryMapAllocator {
    open spec fn wf(&self) -> bool {
        self.inv()
    }

    open spec fn free_frames(&self) -> Set<u64> {
        frames_of(self@)
    }

    open spec fn manages(&self, address: u64) -> bool {
        frame_in_memory(address, self.spec_layout())
    }

    /// Takes the last page of the first run of the free list. A run whose
    /// only page is taken leaves the list, and its header is cleared
    /// before the page is handed out.
    fn allocate(&mut self) -> (frame: Option<Frame>)
        ensures
            final(self)@ == after_allocation(old(self)@),
            final(self).spec_layout() == old(self).spec_layout(),
            frame is Some <==> old(self)@.len() > 0,
            frame matches Some(f) ==> next_allocation(old(self)@) == Some(f@) && f.valid(
                old(self).spec_layout(),
            ),
            frame matches Some(f) ==> old(self)@[0].pages == 1 ==> final(self).header(f@) == (
                0u64,
                0u64,
            ),
    {
        if self.first_node == 0 {
            assert(self@.len() == 0);
            assert(frames_of(self@) =~= Set::<u64>::empty());
            None
        } else {
            assert(self@.len() > 0);
            proof {
                lemma_allocation(self@, self.layout);
            }
            Some(self.take_last_page())
        }
    }

    /// Puts the page of `frame` back into the free list. The list is
    /// walked from its head: the page joins the first run that it lies
    /// directly behind or directly before, closing the gap to the run that
    /// follows in the list if there is one to close and if not, growing
    /// the run by one page. A page that touches no run becomes the head of
    /// the list as a run of its own. The header of a run that starts
    /// earlier than before is written into the page, and the header that
    /// is no longer one is cleared.
    fn free(&mut self, frame: Frame)
        ensures
            final(self)@ == after_free(old(self)@, frame@),
            final(self).spec_layout() == old(self).spec_layout(),
    {
        let address: u64 = frame.get_starting_address().get_address();
        proof {
            lemma_free(self@, self.layout, address);
        }
        let (node_address, size, next, previous, Ghost(index)) = self.find_touching(address);
        if node_address == 0 {
            self.push_page(address);
        } else if node_address + size * 4096 == address {
            self.append_page(address, node_address, size, next, Ghost(index));
        } else {
            self.prepend_page(address, node_address, size, next, previous, Ghost(index));
        }
    }
}

impl MemoryMapAllocator {
    /// Takes the last page of the first run of the list, which must not be
    /// empty.
    fn take_last_page(&mut self) -> (frame: Frame)
        requires
            old(self).inv(),
            old(self)@.len() > 0,
        ensures
            final(self).linked(),
            final(self)@ == after_allocation(old(self)@),
            final(self).spec_layout() == old(self).spec_layout(),
            Some(frame@) == next_allocation(old(self)@),
            old(self)@[0].pages == 1 ==> final(self).header(frame@) == (0u64, 0u64),
    {
        let ghost runs = self@;
        let ghost layout = self.layout;
        let ghost before = *self;
        proof {
            self.lemma_bases_distinct();
            assert(runs[0].wf(layout));
            assert(self.header_matches(0));
        }
        let node_address: u64 = self.first_node - self.layout.direct_map_start;
        let (size, next) = self.memory.read_header(node_address);
        if size == 1 {
            let frame = Frame::from_starting_address(
                PhysicalAddress::new(node_address, &self.layout).unwrap(),
            );
            self.first_node = next;
            self.memory.write_header(node_address, 0, 0);
            self.runs = Ghost(runs.skip(1));
            proof {
                let after = self@;
                assert forall|i: int|
                    0 <= i < after.len() implies
                    #[trigger] self.header_matches(i) by {
                    assert(before.header_matches(i + 1));
                    assert(after[i] == runs[i + 1]);
                    assert(runs[i + 1].base != runs[0].base);
                    if i + 1 < after.len() {
                        assert(after[i + 1] == runs[i + 2]);
                    }
                }
            }
            frame
        } else {
            self.memory.write_header(node_address, size - 1, next);
            self.runs = Ghost(
                runs.update(0, FreeRun { base: runs[0].base, pages: (size - 1) as u64 }),
            );
            proof {
                let after = self@;
                assert forall|i: int|
                    0 <= i < after.len() implies
                    #[trigger] self.header_matches(i) by {
                    assert(before.header_matches(i));
                    if i > 0 {
                        assert(after[i] == runs[i]);
                        assert(runs[i].base != runs[0].base);
                    }
                    if i + 1 < after.len() {
                        assert(after[i + 1] == runs[i + 1]);
                    }
                }
            }
            Frame::from_starting_address(
                PhysicalAddress::new(node_address + 0x1000 * (size - 1), &self.layout).unwrap(),
            )
        }
    }

    /// Walks the list from its head to the first run that the page at
    /// `address` touches. Answers the address of the header of that run,
    /// the two words of the header, and the address of the header of the
    /// run before it in the list, or zero where there is no such run.
    fn find_touching(&self, address: u64) -> (found: (u64, u64, u64, u64, Ghost<int>))
        requires
            self.inv(),
            frame_in_memory(address, self.spec_layout()),
        ensures
            ({
                let (node_address, size, next, previous, index) = found;
                &&& index@ == first_touching(self@, address, 0)
                &&& 0 <= index@ <= self@.len()
                &&& index@ == self@.len() <==> node_address == 0
                &&& index@ < self@.len() ==> {
                    &&& touches(self@[index@], address)
                    &&& node_address == self@[index@].base
                    &&& size == self@[index@].pages
                    &&& next == node_pointer(self@, index@ + 1, self.spec_layout())
                    &&& index@ > 0 ==> previous == self@[index@ - 1].base
                    &&& index@ == 0 ==> previous == 0
                }
            }),
    {
        let offset: u64 = self.layout.direct_map_start;
        let ghost runs = self@;
        let ghost layout = self.layout;
        let mut previous: u64 = 0;
        let mut node: u64 = self.first_node;
        let ghost mut index: int = 0;
        while node != 0
            invariant
                layout.wf(),
                self.linked(),
                self@ == runs,
                self.layout == layout,
                offset == layout.direct_map_start,
                forall|i: int| 0 <= i < runs.len() ==> (#[trigger] runs[i]).wf(layout),
                address + 4096 <= layout.physical_memory_size,
                0 <= index <= runs.len(),
                node == node_pointer(runs, index, layout),
                index > 0 ==> previous == runs[index - 1].base,
                index == 0 ==> previous == 0,
                forall|k: int| 0 <= k < index ==> !touches(#[trigger] runs[k], address),
            decreases runs.len() - index,
        {
            assert(runs[index].wf(layout));
            assert(self.header_matches(index));
            let node_address: u64 = node - offset;
            let (size, next) = self.memory.read_header(node_address);
            let end: u64 = node_address + size * 4096;
            if end == address || address + 4096 == node_address {
                proof {
                    lemma_first_touching_from(runs, address, 0, index);
                }
                return (node_address, size, next, previous, Ghost(index));
            }
            previous = node_address;
            node = next;
            proof {
                index = index + 1;
            }
        }
        proof {
            lemma_first_touching_from(runs, address, 0, index);
        }
        (0, 0, 0, 0, Ghost(index))
    }
}

impl MemoryMapAllocator {
    /// No two runs of the list start at the same address, and every run
    /// starts at a page of the memory.
    proof fn lemma_bases_distinct(&self)
        requires
            self.inv(),
        ensures
            forall|k: int, l: int|
                0 <= k < self@.len() && 0 <= l < self@.len() && k != l
                    ==> (#[trigger] self@[k]).base
                    != (#[trigger] self@[l]).base,
            forall|k: int|
                0 <= k < self@.len() ==> self.memory.holds_page((#[trigger] self@[k]).base),
    {
        assert forall|k: int, l: int|
            0 <= k < self@.len() && 0 <= l < self@.len() && k != l implies
                (#[trigger] self@[k]).base
            != (#[trigger] self@[l]).base by {
            assert(self@[k].wf(self.layout));
            assert(self@[l].wf(self.layout));
            if k < l {
                assert(self@[k].disjoint(self@[l]));
            } else {
                assert(self@[l].disjoint(self@[k]));
            }
        }
        assert forall|k: int| 0 <= k < self@.len() implies self.memory.holds_page(
            (#[trigger] self@[k]).base,
        ) by {
            assert(self@[k].wf(self.layout));
        }
    }

    /// No run of the list starts at a page that is not free.
    proof fn lemma_headers_apart(&self, address: u64)
        requires
            self.inv(),
            address % 4096 == 0,
            !frames_of(self@).contains(address),
        ensures
            forall|k: int| 0 <= k < self@.len() ==> (#[trigger] self@[k]).base != address,
            forall|k: int, l: int|
                0 <= k < self@.len() && 0 <= l < self@.len() && k != l
                    ==> (#[trigger] self@[k]).base
                    != (#[trigger] self@[l]).base,
            forall|k: int|
                0 <= k < self@.len() ==> self.memory.holds_page((#[trigger] self@[k]).base),
    {
        self.lemma_bases_distinct();
        assert forall|k: int|
            0 <= k < self@.len() implies
            (#[trigger] self@[k]).base != address by {
            assert(self@[k].wf(self.layout));
            if self@[k].base == address {
                assert(self@[k].contains(address));
            }
        }
    }

    /// Lets the run at `index`, whose header is at `node_address`, grow by
    /// the page at `address` directly behind it, and by the run that
    /// follows in the list if that run starts directly behind the page.
    fn append_page(
        &mut self,
        address: u64,
        node_address: u64,
        size: u64,
        next: u64,
        Ghost(index): Ghost<int>,
    )
        requires
            old(self).inv(),
            frame_in_memory(address, old(self).spec_layout()),
            !frames_of(old(self)@).contains(address),
            0 <= index < old(self)@.len(),
            first_touching(old(self)@, address, 0) == index,
            old(self)@[index].end() == address,
            node_address == old(self)@[index].base,
            size == old(self)@[index].pages,
            next == node_pointer(old(self)@, index + 1, old(self).spec_layout()),
        ensures
            final(self).inv(),
            final(self)@ == after_free(old(self)@, address),
            final(self).spec_layout() == old(self).spec_layout(),
    {
        let offset: u64 = self.layout.direct_map_start;
        let ghost runs = self@;
        let ghost layout = self.layout;
        let ghost run = runs[index];
        let ghost before = *self;
        proof {
            lemma_free(runs, layout, address);
            self.lemma_headers_apart(address);
            assert(run.wf(layout));
            if index + 1 < runs.len() {
                assert(runs[index + 1].wf(layout));
                assert(runs[index].disjoint(runs[index + 1]));
                assert(self.header_matches(index + 1));
            }
        }
        let closes_gap = next != 0 && next - offset == address + 4096;
        if closes_gap {
            let next_address: u64 = next - offset;
            let (next_size, next_next) = self.memory.read_header(next_address);
            let ghost merged = FreeRun {
                base: run.base,
                pages: (run.pages + 1 + runs[index + 1].pages) as u64,
            };
            self.memory.write_header(node_address, size + 1 + next_size, next_next);
            self.memory.write_header(next_address, 0, 0);
            self.runs = Ghost(runs.update(index, merged).remove(index + 1));
            proof {
                let after = self@;
                assert(after == after_free(runs, address));
                assert forall|k: int| 0 <= k < after.len() implies #[trigger] after[k] == (if k
                    < index {
                    runs[k]
                } else if k == index {
                    merged
                } else {
                    runs[k + 1]
                }) by {}
                assert forall|k: int|
                    0 <= k < after.len() implies
                    #[trigger] self.header_matches(k) by {
                    let from = if k <= index {
                        k
                    } else {
                        k + 1
                    };
                    assert(before.header_matches(from));
                    assert(before.header_matches(index + 1));
                    assert(runs[from].wf(layout));
                    assert(after[k].base == runs[from].base);
                    if k + 1 < after.len() {
                        assert(after[k + 1].base == runs[from + 1 + (if k == index {
                            1int
                        } else {
                            0int
                        })].base);
                    }
                    if from != index {
                        assert(runs[from].base != runs[index].base);
                        assert(runs[from].base != runs[index + 1].base);
                    }
                }
            }
        } else {
            let ghost grown = FreeRun { base: run.base, pages: (run.pages + 1) as u64 };
            self.memory.write_header(node_address, size + 1, next);
            self.runs = Ghost(runs.update(index, grown));
            proof {
                let after = self@;
                assert(after == after_free(runs, address));
                assert forall|k: int|
                    0 <= k < after.len() implies
                    #[trigger] self.header_matches(k) by {
                    assert(before.header_matches(k));
                    assert(runs[k].wf(layout));
                    assert(after[k].base == runs[k].base);
                    if k + 1 < after.len() {
                        assert(after[k + 1].base == runs[k + 1].base);
                    }
                    if k != index {
                        assert(runs[k].base != runs[index].base);
                    }
                }
            }
        }
    }

    /// Lets the run at `index`, whose header is at `node_address`, start
    /// at the page at `address` directly before it: the header moves into
    /// the page, and the link that led to the run leads to the page.
    /// `previous` is the address of the header of the run before it in the
    /// list, if there is one.
    fn prepend_page(
        &mut self,
        address: u64,
        node_address: u64,
        size: u64,
        next: u64,
        previous: u64,
        Ghost(index): Ghost<int>,
    )
        requires
            old(self).inv(),
            frame_in_memory(address, old(self).spec_layout()),
            !frames_of(old(self)@).contains(address),
            0 <= index < old(self)@.len(),
            first_touching(old(self)@, address, 0) == index,
            old(self)@[index].end() != address,
            address + 4096 == old(self)@[index].base,
            node_address == old(self)@[index].base,
            size == old(self)@[index].pages,
            next == node_pointer(old(self)@, index + 1, old(self).spec_layout()),
            index > 0 ==> previous == old(self)@[index - 1].base,
            index == 0 ==> previous == 0,
        ensures
            final(self).inv(),
            final(self)@ == after_free(old(self)@, address),
            final(self).spec_layout() == old(self).spec_layout(),
    {
        let offset: u64 = self.layout.direct_map_start;
        let ghost runs = self@;
        let ghost layout = self.layout;
        let ghost run = runs[index];
        let ghost grown = FreeRun { base: address, pages: (run.pages + 1) as u64 };
        let ghost before = *self;
        proof {
            lemma_free(runs, layout, address);
            self.lemma_headers_apart(address);
            assert(run.wf(layout));
            if index > 0 {
                assert(runs[index - 1].wf(layout));
                assert(self.header_matches(index - 1));
            }
        }
        self.memory.write_header(address, size + 1, next);
        self.memory.write_header(node_address, 0, 0);
        if previous == 0 {
            self.first_node = address + offset;
        } else {
            let (previous_size, _) = self.memory.read_header(previous);
            self.memory.write_header(previous, previous_size, address + offset);
        }
        self.runs = Ghost(runs.update(index, grown));
        proof {
            let after = self@;
            assert(after == after_free(runs, address));
            assert forall|k: int|
                0 <= k < after.len() implies
                #[trigger] self.header_matches(k) by {
                assert(before.header_matches(k));
                assert(runs[k].wf(layout));
                if k + 1 < after.len() && k + 1 != index {
                    assert(after[k + 1].base == runs[k + 1].base);
                }
                if k != index {
                    assert(after[k] == runs[k]);
                    assert(runs[k].base != runs[index].base);
                    assert(runs[k].base != address);
                    if index > 0 && k != index - 1 {
                        assert(runs[k].base != runs[index - 1].base);
                    }
                }
            }
        }
    }

    /// Makes the page at `address`, which touches no run, the head of the
    /// list as a run of its own.
    fn push_page(&mut self, address: u64)
        requires
            old(self).inv(),
            frame_in_memory(address, old(self).spec_layout()),
            !frames_of(old(self)@).contains(address),
            first_touching(old(self)@, address, 0) == old(self)@.len(),
        ensures
            final(self).inv(),
            final(self)@ == after_free(old(self)@, address),
            final(self).spec_layout() == old(self).spec_layout(),
    {
        let ghost runs = self@;
        let ghost single = FreeRun { base: address, pages: 1 };
        proof {
            lemma_free(runs, self.layout, address);
            assert forall|k: int| 0 <= k < runs.len() implies single.disjoint(
                #[trigger] runs[k],
            ) by {
                assert(runs[k].wf(self.layout));
                lemma_page_apart(runs[k], self.layout, address);
            }
        }
        self.push_run(address, 1);
    }

    /// Makes the run of `pages` pages at `base`, which overlaps no run of
    /// the list, the head of the list: its header is written into its
    /// first page and linked to the head of before.
    fn push_run(&mut self, base: u64, pages: u64)
        requires
            old(self).inv(),
            (FreeRun { base, pages }).wf(old(self).spec_layout()),
            forall|k: int|
                0 <= k < old(self)@.len() ==> (FreeRun { base, pages }).disjoint(
                    #[trigger] old(self)@[k],
                ),
        ensures
            final(self).inv(),
            final(self)@ == seq![FreeRun { base, pages }] + old(self)@,
            final(self).spec_layout() == old(self).spec_layout(),
    {
        let ghost runs = self@;
        let ghost layout = self.layout;
        let ghost run = FreeRun { base, pages };
        let ghost before = *self;
        proof {
            self.lemma_bases_distinct();
            assert forall|k: int| 0 <= k < runs.len() implies (#[trigger] runs[k]).base != base by {
                assert(runs[k].wf(layout));
                assert(run.disjoint(runs[k]));
            }
        }
        self.memory.write_header(base, pages, self.first_node);
        self.first_node = base + self.layout.direct_map_start;
        self.runs = Ghost(seq![run] + runs);
        proof {
            let after = self@;
            assert(after[0] == run);
            assert forall|i: int| 0 <= i < after.len() implies (#[trigger] after[i]).wf(layout) by {
                if i > 0 {
                    assert(after[i] == runs[i - 1]);
                    assert(runs[i - 1].wf(layout));
                }
            }
            assert forall|i: int, j: int| 0 <= i < j < after.len() implies (
            #[trigger] after[i]).disjoint(#[trigger] after[j]) by {
                assert(after[j] == runs[j - 1]);
                if i > 0 {
                    assert(after[i] == runs[i - 1]);
                    assert(runs[i - 1].disjoint(runs[j - 1]));
                } else {
                    assert(run.disjoint(runs[j - 1]));
                }
            }
            assert forall|k: int|
                0 <= k < after.len() implies
                #[trigger] self.header_matches(k) by {
                if k + 1 < after.len() {
                    assert(after[k + 1] == runs[k]);
                }
                if k > 0 {
                    assert(before.header_matches(k - 1));
                    assert(after[k] == runs[k - 1]);
                    assert(runs[k - 1].base != base);
                }
            }
        }
    }
}

} // verus!
