//! A page table: 1024 entries of 32 bits, each mapping one 4 KB page, so one
//! table covers 4 MB of virtual address space. An entry holds the page's
//! physical address in bits 31:12 and flags in bits 11:0.
use vstd::prelude::*;

pub mod flags;

verus! {

/// A page table entry: bits 31:12 the page's physical address, 11:0 flags.
pub type PageTableEntry = u32;

/// The value of an entry that maps the page at `addr` with `flags`.
pub open spec fn make_entry(addr: u32, flags: u32) -> u32 {
    (addr & 0xFFFF_F000u32) | (flags & 0xFFFu32)
}

/// Whether an entry has its present bit set.
pub open spec fn entry_present(e: u32) -> bool {
    e & 1u32 != 0u32
}

/// A page table of 1024 entries.
#[derive(Copy, Clone)]
pub struct PageTable {
    /// The 1024 entries.
    pub entries: [PageTableEntry; 1024],
}

impl PageTable {
    /// A table with every entry 0 (not present).
    pub fn new() -> (r: Self)
        ensures
            forall|i: int| 0 <= i < 1024 ==> r.entries@[i] == 0u32,
    {
        PageTable { entries: [0u32; 1024] }
    }

    /// Set entry `index` to the page at `page_physical_addr` (4 KB aligned)
    /// with `flags` (only their low 12 bits are kept).
    pub fn set_entry(&mut self, index: usize, page_physical_addr: u32, flags: u32)
        requires
            index < 1024,
            page_physical_addr & 0xFFFu32 == 0,
        ensures
            final(self).entries@ == old(self).entries@.update(
                index as int,
                make_entry(page_physical_addr, flags),
            ),
    {
        self.entries[index] = (page_physical_addr & 0xFFFF_F000) | (flags & 0xFFF);
    }

    /// Clear entry `index` (not present).
    pub fn clear_entry(&mut self, index: usize)
        requires
            index < 1024,
        ensures
            final(self).entries@ == old(self).entries@.update(index as int, 0u32),
    {
        self.entries[index] = 0;
    }

    /// The raw value of entry `index`.
    pub fn get_entry(&self, index: usize) -> (r: PageTableEntry)
        requires
            index < 1024,
        ensures
            r == self.entries@[index as int],
    {
        self.entries[index]
    }

    /// Whether entry `index` is present.
    pub fn is_present(&self, index: usize) -> (r: bool)
        requires
            index < 1024,
        ensures
            r == entry_present(self.entries@[index as int]),
    {
        (self.entries[index] & flags::PRESENT) != 0
    }

    /// The physical address entry `index` maps, `None` when not present.
    pub fn get_page_address(&self, index: usize) -> (r: Option<u32>)
        requires
            index < 1024,
        ensures
            r == if entry_present(self.entries@[index as int]) {
                Some(self.entries@[index as int] & 0xFFFF_F000u32)
            } else {
                None
            },
    {
        if !self.is_present(index) {
            None
        } else {
            Some(self.entries[index] & 0xFFFF_F000)
        }
    }
}

impl Default for PageTable {
    fn default() -> (r: Self)
        ensures
            forall|i: int| 0 <= i < 1024 ==> r.entries@[i] == 0u32,
    {
        Self::new()
    }
}

} // verus!
