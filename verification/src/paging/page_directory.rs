//! The page directory: 1024 entries of 32 bits, each pointing at a page table,
//! so each entry covers 4 MB and the directory 4 GB. An entry holds the table's
//! physical address in bits 31:12 and flags in bits 11:0.
use vstd::prelude::*;

pub mod flags;

verus! {

/// A page directory entry: bits 31:12 the page table's physical address, 11:0 flags.
pub type PageDirectoryEntry = u32;

/// The page directory of 1024 entries.
#[derive(Copy, Clone)]
pub struct PageDirectory {
    /// The 1024 entries.
    pub entries: [PageDirectoryEntry; 1024],
}

impl PageDirectory {
    /// A directory with every entry 0 (not present).
    pub fn new() -> (r: Self)
        ensures
            forall|i: int| 0 <= i < 1024 ==> r.entries@[i] == 0u32,
    {
        PageDirectory { entries: [0u32; 1024] }
    }

    /// Set entry `index` to the page table at `pt_physical_addr` (4 KB aligned)
    /// with `flags` (only their low 12 bits are kept).
    pub fn set_entry(&mut self, index: usize, pt_physical_addr: u32, flags: u32)
        requires
            index < 1024,
            pt_physical_addr & 0xFFFu32 == 0,
        ensures
            final(self).entries@ == old(self).entries@.update(
                index as int,
                crate::paging::page_table::make_entry(pt_physical_addr, flags),
            ),
    {
        self.entries[index] = (pt_physical_addr & 0xFFFF_F000) | (flags & 0xFFF);
    }

    /// Clear entry `index` (not present).
    pub fn clear_entry(&mut self, index: usize)
        requires
            index < 1024,
        ensures
            final(self).entries@ == old(self).entries@.update(index as int, 0u32),
    {
        self.entries[index] = 0;
    }

    /// The raw value of entry `index`.
    pub fn get_entry(&self, index: usize) -> (r: PageDirectoryEntry)
        requires
            index < 1024,
        ensures
            r == self.entries@[index as int],
    {
        self.entries[index]
    }

    /// Whether entry `index` is present.
    pub fn is_present(&self, index: usize) -> (r: bool)
        requires
            index < 1024,
        ensures
            r == crate::paging::page_table::entry_present(self.entries@[index as int]),
    {
        (self.entries[index] & flags::PRESENT) != 0
    }

    /// The physical address of the page table entry `index` points at, `None` when not present.
    pub fn get_pt_address(&self, index: usize) -> (r: Option<u32>)
        requires
            index < 1024,
        ensures
            r == if crate::paging::page_table::entry_present(self.entries@[index as int]) {
                Some(self.entries@[index as int] & 0xFFFF_F000u32)
            } else {
                None
            },
    {
        if !self.is_present(index) {
            None
        } else {
            Some(self.entries[index] & 0xFFFF_F000)
        }
    }
}

impl Default for PageDirectory {
    fn default() -> (r: Self)
        ensures
            forall|i: int| 0 <= i < 1024 ==> r.entries@[i] == 0u32,
    {
        Self::new()
    }
}

} // verus!
