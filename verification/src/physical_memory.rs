//! Physical memory as the kernel reaches it through the direct map.
//!
//! The allocator keeps the header of each run of free pages in the first
//! two words of the run's first page. This module holds the memory and
//! gives access to those headers, one page at a time.

use vstd::prelude::*;

verus! {

/// Physical memory, held as 64-bit words.
pub struct PhysicalMemory {
    words: Vec<u64>,
    size: u64,
}

impl PhysicalMemory {
    #[verifier::type_invariant]
    spec fn holds_whole_words(&self) -> bool {
        self.words@.len() == self.size / 8
    }

    /// The number of bytes of the memory.
    pub closed spec fn size(&self) -> u64 {
        self.size
    }

    /// The two words at the start of the page at `address`: for the first
    /// page of a run of free pages, the number of pages of the run and the
    /// pointer to the header of the next run.
    pub closed spec fn header(&self, address: u64) -> (u64, u64) {
        (self.words@[(address / 8) as int], self.words@[address / 8 + 1])
    }

    /// Whether `address` is the start of a page that lies in the memory.
    pub open spec fn holds_page(&self, address: u64) -> bool {
        address % 4096 == 0 && address + 4096 <= self.size()
    }

    /// Memory of `size` bytes, all zero.
    pub fn new(size: u64) -> (memory: Self)
        requires
            size / 8 <= usize::MAX,
        ensures
            memory.size() == size,
            forall|address: u64|
                memory.holds_page(address) ==> #[trigger] memory.header(address) == (
                0u64,
                0u64,
            ),
    {
        let length: usize = (size / 8) as usize;
        PhysicalMemory { words: vec![0u64; length], size }
    }

    /// Reads the header in the page at `address`.
    pub fn read_header(&self, address: u64) -> (header: (u64, u64))
        requires
            self.holds_page(address),
        ensures
            header == self.header(address),
    {
        proof {
            use_type_invariant(self);
        }
        let length: usize = self.words.len();
        let index: u64 = address / 8;
        assert(index + 1 < length);
        (self.words[index as usize], self.words[index as usize + 1])
    }

    /// Writes the header in the page at `address`. The headers in all other
    /// pages keep their values.
    pub fn write_header(&mut self, address: u64, pages: u64, next: u64)
        requires
            old(self).holds_page(address),
        ensures
            final(self).size() == old(self).size(),
            final(self).header(address) == (pages, next),
            forall|other: u64|
                old(self).holds_page(other) && other != address ==> #[trigger] final(self).header(
                    other,
                ) == old(self).header(other),
    {
        proof {
            use_type_invariant(&*self);
        }
        let length: usize = self.words.len();
        let index: u64 = address / 8;
        assert(index + 1 < length);
        self.words[index as usize] = pages;
        self.words[index as usize + 1] = next;
        proof {
            assert forall|other: u64|
                old(self).holds_page(other) && other != address implies
                    #[trigger] self.header(other)
                == old(self).header(other) by {
                assert(other / 8 != address / 8);
                assert(other / 8 != address / 8 + 1);
                assert(other / 8 + 1 != address / 8);
                assert(other / 8 + 1 < length);
            }
        }
    }
}

} // verus!
