//! Mapping virtual pages to physical frames through the page directory and
//! its page tables.
//!
//! The page-table memory is modelled as one `PageTable` per directory slot:
//! the table that directory entry `i` points at is `tables[i]`. A directory
//! entry still records the table's physical address (a frame from the frame
//! allocator, or one of the statically placed identity tables), and frames of
//! emptied tables above the identity map go back to the allocator.
use vstd::prelude::*;
use crate::paging::page_table::PageTable;
use crate::paging::page_directory::PageDirectory;
use crate::paging::frame_allocator::FrameAllocator;
use crate::paging::page_table::flags as pt_flags;
use crate::paging::page_directory::flags as pd_flags;

verus! {

/// Number of pages in one page table (4 MB).
pub const PAGES_PER_PT: usize = 1024;

/// Number of bytes in one 4 KB page.
pub const PAGE_SIZE: usize = 4096;

/// Number of bytes one page table covers (4 MB).
pub const BYTES_PER_PT: usize = PAGES_PER_PT * PAGE_SIZE;

/// Number of statically placed page tables of the identity map (16 x 4 MB = 64 MB).
pub const NUM_IDENTITY_PTS: usize = 16;

/// Directory index of a virtual address (bits 31:22).
pub open spec fn pd_index(v: u32) -> int {
    ((v >> 22u32) & 0x3FFu32) as int
}

/// Table index of a virtual address (bits 21:12).
pub open spec fn pt_index(v: u32) -> int {
    ((v >> 12u32) & 0x3FFu32) as int
}

/// Whether two addresses lie in the same 4 KB page.
pub open spec fn same_page(a: u32, b: u32) -> bool {
    a & 0xFFFF_F000u32 == b & 0xFFFF_F000u32
}

/// Flags of the page table entry `map_page` writes: present, plus writable
/// and user as asked.
pub open spec fn pte_flags_for(writable: bool, user: bool) -> u32 {
    let f = if writable { 1u32 | 2u32 } else { 1u32 };
    if user { f | 4u32 } else { f }
}

/// Flags of a directory entry `map_page` creates: present and writable, plus
/// user as asked.
pub open spec fn pde_flags_for(user: bool) -> u32 {
    if user { 3u32 | 4u32 } else { 3u32 }
}

/// The directory entry `map_page` leaves for a virtual address whose entry was
/// `old_e`: a new entry for the table at `frame` when `old_e` was not present,
/// `old_e` with the user bit when a user page goes into a supervisor table,
/// `old_e` otherwise.
pub open spec fn pde_after_map(old_e: u32, frame: u32, user: bool) -> u32 {
    if !crate::paging::page_table::entry_present(old_e) {
        crate::paging::page_table::make_entry(frame, pde_flags_for(user))
    } else if user && old_e & 4u32 == 0u32 {
        old_e | 4u32
    } else {
        old_e
    }
}

/// What `map_page(virt, phys, writable, user)` does to the address space
/// `s0` and the frames `f0`, giving `s1` and `f1`: the directory entry of
/// `virt` is made present (on a fresh zeroed table in the frame `f0` hands
/// out next) or promoted to user, the page's table entry is set, no other
/// table changes, and a frame is taken only for a new table.
pub open spec fn map_page_effect(
    s0: AddressSpace,
    s1: AddressSpace,
    f0: FrameAllocator,
    f1: FrameAllocator,
    virt: u32,
    phys: u32,
    writable: bool,
    user: bool,
) -> bool {
    let pd = pd_index(virt);
    let old_e = s0.dir()[pd];
    let absent = !crate::paging::page_table::entry_present(old_e);
    let frame = match f0.next_alloc_index() {
        Some(idx) => (idx * PAGE_SIZE) as u32,
        None => 0u32,
    };
    &&& s1.dir() =~= s0.dir().update(pd, pde_after_map(old_e, frame, user))
    &&& s1.table(pd) =~= (if absent { Seq::new(1024, |j: int| 0u32) } else { s0.table(pd) }).update(
        pt_index(virt),
        crate::paging::page_table::make_entry(phys & 0xFFFF_F000u32, pte_flags_for(writable, user)),
    )
    &&& forall|i: int| 0 <= i < 1024 && i != pd ==> #[trigger] s1.table(i) =~= s0.table(i)
    &&& if absent {
        f0.took_frame(&f1, f0.next_alloc_index()->0)
    } else {
        f1 == f0
    }
}

/// What `unmap_page(virt)` does to `s0` and `f0`, giving `s1` and `f1`: the
/// page's table entry is cleared; a table above the identity map that is
/// left empty is taken out of the directory and its frame freed.
pub open spec fn unmap_page_effect(s0: AddressSpace, s1: AddressSpace, f0: FrameAllocator, f1: FrameAllocator, virt: u32) -> bool {
    let pd = pd_index(virt);
    let old_e = s0.dir()[pd];
    let t = s0.table(pd).update(pt_index(virt), 0u32);
    let reclaim = pd >= NUM_IDENTITY_PTS && forall|j: int| 0 <= j < 1024 ==> t[j] == 0u32;
    &&& forall|i: int| 0 <= i < 1024 && i != pd ==> #[trigger] s1.table(i) =~= s0.table(i)
    &&& if !crate::paging::page_table::entry_present(old_e) {
        &&& s1.dir() =~= s0.dir()
        &&& s1.table(pd) =~= s0.table(pd)
        &&& f1 == f0
    } else if reclaim {
        &&& s1.dir() =~= s0.dir().update(pd, 0u32)
        &&& s1.table(pd) =~= t
        &&& f0.freed(&f1, old_e & 0xFFFF_F000u32)
    } else {
        &&& s1.dir() =~= s0.dir()
        &&& s1.table(pd) =~= t
        &&& f1 == f0
    }
}

/// Number of whole pages a range of `size` bytes covers (rounded up).
pub open spec fn range_pages(size: usize) -> int {
    (size + 4095) / 4096
}

/// The page an address lies in.
pub open spec fn page_of(w: u32) -> int {
    (w & 0xFFFF_F000u32) as int
}

/// Frame `k` held a page table that a range unmap gave back: some directory
/// entry of `[lo, end)` was present in `d0` with that frame and is cleared in
/// `d1`, and the frame is tracked (below `total`).
pub open spec fn reclaimed(d0: Seq<u32>, d1: Seq<u32>, lo: int, end: int, total: nat, k: int) -> bool {
    exists|p: int|
        #![trigger d1[p]]
        lo <= p < end && crate::paging::page_table::entry_present(d0[p]) && d1[p] == 0u32 && (d0[p] & 0xFFFF_F000u32)
            / 4096 == k && k < total
}

/// Page `j` of a run of pages from `base`.
pub open spec fn page_at(base: u32, j: int) -> u32 {
    (base + j * 4096) as u32
}

/// First directory index a range starting at `virt_start` touches.
pub open spec fn range_first_table(virt_start: u32) -> int {
    pd_index(virt_start & 0xFFFF_F000u32)
}

/// One past the last directory index a range of `size` bytes at
/// `virt_start` touches.
pub open spec fn range_table_end(virt_start: u32, size: usize) -> int {
    let n = range_pages(size);
    if n > 0 {
        pd_index((((virt_start & 0xFFFF_F000u32) as int) + (n - 1) * 4096) as u32) + 1
    } else {
        range_first_table(virt_start)
    }
}

/// Number of non-present entries of `d` among the indices `[lo, hi)`.
pub open spec fn count_absent(d: Seq<u32>, lo: int, hi: int) -> nat
    decreases hi - lo,
{
    if lo >= hi {
        0
    } else {
        (if !crate::paging::page_table::entry_present(d[lo]) { 1nat } else { 0nat }) + count_absent(d, lo + 1, hi)
    }
}

/// Number of page tables needed to cover `bytes` bytes.
pub fn num_page_tables_for(bytes: usize) -> (r: usize)
    requires
        bytes + BYTES_PER_PT <= usize::MAX,
    ensures
        r == (bytes + BYTES_PER_PT - 1) / BYTES_PER_PT as int,
{
    (bytes + BYTES_PER_PT - 1) / BYTES_PER_PT
}

/// Whether every entry of `pt` is 0.
pub fn is_page_table_empty(pt: &PageTable) -> (r: bool)
    ensures
        r == forall|i: int| 0 <= i < 1024 ==> pt.entries@[i] == 0u32,
{
    let mut i: usize = 0;
    while i < PAGES_PER_PT
        invariant
            i <= 1024,
            forall|j: int| 0 <= j < i ==> pt.entries@[j] == 0u32,
        decreases 1024 - i,
    {
        if pt.entries[i] != 0 {
            return false;
        }
        i = i + 1;
    }
    true
}

/// The page directory together with the page tables it points at.
pub struct AddressSpace {
    directory: PageDirectory,
    tables: Vec<PageTable>,
}

impl AddressSpace {
    /// The directory entries.
    pub closed spec fn dir(&self) -> Seq<u32> {
        self.directory.entries@
    }

    /// The entries of the table that directory entry `i` points at.
    pub closed spec fn table(&self, i: int) -> Seq<u32> {
        self.tables@[i].entries@
    }

    /// Number of table slots.
    pub closed spec fn table_slots(&self) -> nat {
        self.tables@.len()
    }

    /// The invariant: one table per directory slot, and the table behind a
    /// non-present directory entry is all zero.
    pub open spec fn wf(&self) -> bool {
        &&& self.dir().len() == 1024
        &&& self.table_slots() == 1024
        &&& forall|i: int, j: int|
            0 <= i < 1024 && 0 <= j < 1024 && !crate::paging::page_table::entry_present(#[trigger] self.dir()[i])
                ==> #[trigger] self.table(i)[j] == 0u32
    }

    /// The page table entry for the page of `v`.
    pub open spec fn entry_of(&self, v: u32) -> u32 {
        self.table(pd_index(v))[pt_index(v)]
    }

    /// What the hardware walk makes of virtual address `v`: the physical
    /// address, or `None` when the directory or table entry is not present.
    pub open spec fn translate(&self, v: u32) -> Option<u32> {
        let d = self.dir()[pd_index(v)];
        if !crate::paging::page_table::entry_present(d) {
            None
        } else {
            let e = self.table(pd_index(v))[pt_index(v)];
            if !crate::paging::page_table::entry_present(e) {
                None
            } else {
                Some((e & 0xFFFF_F000u32) | (v & 0xFFFu32))
            }
        }
    }

    /// An empty address space: no directory entry present.
    pub fn new() -> (r: Self)
        ensures
            r.wf(),
            forall|i: int| 0 <= i < 1024 ==> r.dir()[i] == 0u32,
            forall|v: u32| r.translate(v) is None,
    {
        let mut tables: Vec<PageTable> = Vec::new();
        let mut i: usize = 0;
        while i < 1024
            invariant
                i <= 1024,
                tables@.len() == i,
                forall|k: int, j: int| 0 <= k < i && 0 <= j < 1024 ==> #[trigger] tables@[k].entries@[j] == 0u32,
            decreases 1024 - i,
        {
            let t = PageTable::new();
            let ghost before = tables@;
            tables.push(t);
            assert forall|k: int, j: int| 0 <= k < i + 1 && 0 <= j < 1024 implies #[trigger] tables@[k].entries@[j] == 0u32 by {
                if k < i {
                    assert(tables@[k] == before[k]);
                }
            }
            i = i + 1;
        }
        let r = AddressSpace { directory: PageDirectory::new(), tables };
        assert forall|v: u32| r.translate(v) is None by {
            lemma_index_bounds(v);
            lemma_zero_not_present();
        }
        r
    }

    /// The page directory.
    pub fn directory(&self) -> (r: &PageDirectory)
        ensures
            r.entries@ == self.dir(),
    {
        &self.directory
    }

    /// The page table directory entry `pd_index` points at, `None` when that
    /// entry is not present.
    pub fn get_page_table(&self, pd_index: usize) -> (r: Option<&PageTable>)
        requires
            self.wf(),
            pd_index < 1024,
        ensures
            match r {
                Some(t) => crate::paging::page_table::entry_present(self.dir()[pd_index as int])
                    && t.entries@ == self.table(pd_index as int),
                None => !crate::paging::page_table::entry_present(self.dir()[pd_index as int]),
            },
    {
        if !self.directory.is_present(pd_index) {
            None
        } else {
            Some(&self.tables[pd_index])
        }
    }

    /// Map the page of `virt_addr` to the frame of `phys_addr` (both taken
    /// down to 4 KB), present, with the writable and user bits as asked. When
    /// the directory entry is not present, a zeroed page table is made in a
    /// frame taken from `frames`; a user page promotes a supervisor directory
    /// entry to user. An earlier mapping of the page is overwritten. The
    /// caller invalidates the TLB entry of `virt_addr`.
    pub fn map_page(&mut self, frames: &mut FrameAllocator, virt_addr: u32, phys_addr: u32, writable: bool, user: bool)
        requires
            old(self).wf(),
            old(frames).wf(),
            !crate::paging::page_table::entry_present(old(self).dir()[pd_index(virt_addr)]) ==> old(frames).alloc_in_bounds()
                && old(frames).next_alloc_index() is Some,
        ensures
            final(self).wf(),
            final(frames).wf(),
            forall|w: u32| #[trigger] final(self).translate(w) == if same_page(w, virt_addr) {
                Some((phys_addr & 0xFFFF_F000u32) | (w & 0xFFFu32))
            } else {
                old(self).translate(w)
            },
            map_page_effect(*old(self), *final(self), *old(frames), *final(frames), virt_addr, phys_addr, writable, user),
    {
        proof {
            lemma_index_bounds(virt_addr);
            lemma_flags_present(writable, user);
            lemma_mask_aligned(phys_addr);
            lemma_promote_present(old(self).dir()[pd_index(virt_addr)]);
        }
        let ghost frame = match frames.next_alloc_index() {
            Some(idx) => (idx * PAGE_SIZE) as u32,
            None => 0u32,
        };
        let pd_idx = ((virt_addr >> 22) & 0x3FF) as usize;
        let pt_idx = ((virt_addr >> 12) & 0x3FF) as usize;
        let phys_aligned = phys_addr & 0xFFFF_F000;
        let mut pte_flags = pt_flags::PRESENT;
        if writable {
            pte_flags = pte_flags | pt_flags::WRITABLE;
        }
        if user {
            pte_flags = pte_flags | pt_flags::USER;
        }
        let mut pde_flags = pd_flags::PRESENT | pd_flags::WRITABLE;
        if user {
            pde_flags = pde_flags | pd_flags::USER;
        }
        assert(pd_flags::PRESENT | pd_flags::WRITABLE == 3u32) by (bit_vector);
        let ghost absent = !crate::paging::page_table::entry_present(self.dir()[pd_idx as int]);
        if !self.directory.is_present(pd_idx) {
            proof {
                crate::paging::frame_allocator::law_alloc_picks_free_frame(*frames);
            }
            let new_pt_phys = match frames.alloc_frame() {
                Some(f) => f,
                None => 0,
            };
            proof {
                let idx = old(frames).next_alloc_index()->0;
                assert(0 <= idx * PAGE_SIZE < 0x1_0000_0000);
                assert(new_pt_phys == idx * PAGE_SIZE);
                lemma_multiple_aligned(new_pt_phys);
                lemma_make_entry(new_pt_phys, pde_flags);
            }
            self.tables[pd_idx] = PageTable::new();
            self.directory.set_entry(pd_idx, new_pt_phys, pde_flags);
        } else if user {
            let existing = self.directory.get_entry(pd_idx);
            if existing & pd_flags::USER == 0 {
                self.directory.entries[pd_idx] = existing | pd_flags::USER;
            }
        }
        let mut pt = self.tables[pd_idx];
        pt.set_entry(pt_idx, phys_aligned, pte_flags);
        self.tables[pd_idx] = pt;
        proof {
            let new_e = crate::paging::page_table::make_entry(phys_aligned, pte_flags);
            lemma_make_entry(phys_aligned, pte_flags);
            assert(self.table(pd_idx as int) =~= (if absent { Seq::new(1024, |j: int| 0u32) } else { old(self).table(pd_idx as int) }).update(
                pt_idx as int, new_e));
            assert forall|i: int, j: int|
                0 <= i < 1024 && 0 <= j < 1024 && !crate::paging::page_table::entry_present(#[trigger] self.dir()[i])
                implies #[trigger] self.table(i)[j] == 0u32 by {
                if i != pd_idx {
                    assert(self.dir()[i] == old(self).dir()[i]);
                    assert(self.table(i) == old(self).table(i));
                }
            }
            assert forall|w: u32| #[trigger] self.translate(w) == if same_page(w, virt_addr) {
                Some((phys_addr & 0xFFFF_F000u32) | (w & 0xFFFu32))
            } else {
                old(self).translate(w)
            } by {
                lemma_same_page_indices(w, virt_addr);
                lemma_index_bounds(w);
                lemma_zero_not_present();
                if pd_index(w) != pd_idx as int {
                    assert(self.dir()[pd_index(w)] == old(self).dir()[pd_index(w)]);
                    assert(self.table(pd_index(w)) == old(self).table(pd_index(w)));
                }
            }
        }
    }

    /// Unmap the page of `virt_addr`: its table entry becomes 0. Nothing
    /// happens when the directory entry is not present. When the table is
    /// then empty and lies above the identity map, its frame goes back to
    /// `frames` and the directory entry is cleared. The frame that was mapped
    /// is not freed. The caller invalidates the TLB entry of `virt_addr`.
    pub fn unmap_page(&mut self, frames: &mut FrameAllocator, virt_addr: u32)
        requires
            old(self).wf(),
            old(frames).wf(),
        ensures
            final(self).wf(),
            final(frames).wf(),
            forall|w: u32| #[trigger] final(self).translate(w) == if same_page(w, virt_addr) {
                None
            } else {
                old(self).translate(w)
            },
            unmap_page_effect(*old(self), *final(self), *old(frames), *final(frames), virt_addr),
    {
        proof {
            lemma_index_bounds(virt_addr);
            lemma_zero_not_present();
        }
        let pd_idx = ((virt_addr >> 22) & 0x3FF) as usize;
        let pt_idx = ((virt_addr >> 12) & 0x3FF) as usize;
        if !self.directory.is_present(pd_idx) {
            proof {
                assert forall|w: u32| #[trigger] self.translate(w) == if same_page(w, virt_addr) {
                    None
                } else {
                    old(self).translate(w)
                } by {
                    lemma_same_page_indices(w, virt_addr);
                }
            }
            return;
        }
        let pt_addr = match self.directory.get_pt_address(pd_idx) {
            Some(a) => a,
            None => 0,
        };
        let mut pt = self.tables[pd_idx];
        pt.clear_entry(pt_idx);
        self.tables[pd_idx] = pt;
        if pd_idx >= NUM_IDENTITY_PTS && is_page_table_empty(&self.tables[pd_idx]) {
            frames.free_frame(pt_addr);
            self.directory.clear_entry(pd_idx);
        }
        proof {
            assert(self.table(pd_idx as int) =~= old(self).table(pd_idx as int).update(pt_idx as int, 0u32));
            assert forall|i: int, j: int|
                0 <= i < 1024 && 0 <= j < 1024 && !crate::paging::page_table::entry_present(#[trigger] self.dir()[i])
                implies #[trigger] self.table(i)[j] == 0u32 by {
                if i != pd_idx {
                    assert(self.dir()[i] == old(self).dir()[i]);
                    assert(self.table(i) == old(self).table(i));
                }
            }
            assert forall|w: u32| #[trigger] self.translate(w) == if same_page(w, virt_addr) {
                None
            } else {
                old(self).translate(w)
            } by {
                lemma_same_page_indices(w, virt_addr);
                lemma_index_bounds(w);
                if pd_index(w) != pd_idx as int {
                    assert(self.dir()[pd_index(w)] == old(self).dir()[pd_index(w)]);
                    assert(self.table(pd_index(w)) == old(self).table(pd_index(w)));
                } else if pt_index(w) != pt_idx as int {
                    assert(self.table(pd_idx as int)[pt_index(w)] == old(self).table(pd_idx as int)[pt_index(w)]);
                    if !crate::paging::page_table::entry_present(self.dir()[pd_idx as int]) {
                        assert(self.table(pd_idx as int)[pt_index(w)] == 0u32);
                    }
                }
            }
        }
    }

    /// Identity-map the first 64 MB: entry `j` of table `i < 16` maps the
    /// page at `(i * 1024 + j) * 4096` present and writable, and directory
    /// entry `i` points at the table placed at `table_addrs[i]`, present and
    /// writable. The other directory entries are left as they are.
    pub fn identity_map(&mut self, table_addrs: [u32; 16])
        requires
            old(self).wf(),
            forall|i: int| 0 <= i < 16 ==> table_addrs@[i] & 0xFFFu32 == 0,
        ensures
            final(self).wf(),
            forall|i: int| 0 <= i < 1024 ==> #[trigger] final(self).dir()[i] == if i < 16 {
                crate::paging::page_table::make_entry(table_addrs@[i], 3u32)
            } else {
                old(self).dir()[i]
            },
            forall|i: int, j: int| 0 <= i < 16 && 0 <= j < 1024 ==> #[trigger] final(self).table(i)[j]
                == crate::paging::page_table::make_entry(((i * 1024 + j) * 4096) as u32, 3u32),
            forall|i: int| 16 <= i < 1024 ==> #[trigger] final(self).table(i) == old(self).table(i),
            forall|v: u32| #[trigger] final(self).translate(v) == if pd_index(v) < 16 {
                Some(v)
            } else {
                old(self).translate(v)
            },
    {
        let pde_flags = pd_flags::PRESENT | pd_flags::WRITABLE;
        let pte_flags = pt_flags::PRESENT | pt_flags::WRITABLE;
        assert(pd_flags::PRESENT | pd_flags::WRITABLE == 3u32) by (bit_vector);
        assert(pt_flags::PRESENT | pt_flags::WRITABLE == 3u32) by (bit_vector);
        let mut pt_idx: usize = 0;
        while pt_idx < NUM_IDENTITY_PTS
            invariant
                pt_idx <= 16,
                pde_flags == 3u32,
                pte_flags == 3u32,
                self.table_slots() == 1024,
                old(self).wf(),
                forall|i: int| 0 <= i < 16 ==> table_addrs@[i] & 0xFFFu32 == 0,
                forall|i: int| 0 <= i < pt_idx ==> #[trigger] self.dir()[i]
                    == crate::paging::page_table::make_entry(table_addrs@[i], 3u32),
                forall|i: int| pt_idx <= i < 1024 ==> #[trigger] self.dir()[i] == old(self).dir()[i],
                forall|i: int, j: int| 0 <= i < pt_idx && 0 <= j < 1024 ==> #[trigger] self.table(i)[j]
                    == crate::paging::page_table::make_entry(((i * 1024 + j) * 4096) as u32, 3u32),
                forall|i: int| pt_idx <= i < 1024 ==> #[trigger] self.table(i) == old(self).table(i),
            decreases 16 - pt_idx,
        {
            let mut pt = self.tables[pt_idx];
            let mut page_idx: usize = 0;
            while page_idx < PAGES_PER_PT
                invariant
                    pt_idx < 16,
                    page_idx <= 1024,
                    pte_flags == 3u32,
                    forall|j: int| 0 <= j < page_idx ==> #[trigger] pt.entries@[j]
                        == crate::paging::page_table::make_entry(((pt_idx * 1024 + j) * 4096) as u32, 3u32),
                decreases 1024 - page_idx,
            {
                let phys_addr = ((pt_idx * PAGES_PER_PT + page_idx) * PAGE_SIZE) as u32;
                proof {
                    assert((pt_idx * 1024 + page_idx) * 4096 < 0x1_0000_0000) by (nonlinear_arith)
                        requires
                            pt_idx < 16,
                            page_idx < 1024,
                    ;
                    assert(phys_addr == (pt_idx * 1024 + page_idx) * 4096);
                    assert(phys_addr % 4096 == 0) by (nonlinear_arith)
                        requires
                            phys_addr == (pt_idx * 1024 + page_idx) * 4096,
                    ;
                    lemma_multiple_aligned(phys_addr);
                }
                pt.set_entry(page_idx, phys_addr, pte_flags);
                page_idx = page_idx + 1;
            }
            let ghost prev = *self;
            let ghost d0 = self.dir();
            let ghost t0 = self.tables@;
            self.tables[pt_idx] = pt;
            assert(self.dir() == d0);
            let pt_physical_addr = table_addrs[pt_idx];
            self.directory.set_entry(pt_idx, pt_physical_addr, pde_flags);
            assert(self.dir() == d0.update(pt_idx as int, crate::paging::page_table::make_entry(pt_physical_addr, 3u32)));
            assert(self.tables@ == t0.update(pt_idx as int, pt));
            assert forall|i: int| 0 <= i < 1024 && i != pt_idx implies #[trigger] self.table(i) == prev.table(i) by {}
            assert(self.table(pt_idx as int) == pt.entries@);
            pt_idx = pt_idx + 1;
        }
        proof {
            assert forall|i: int, j: int|
                0 <= i < 1024 && 0 <= j < 1024 && !crate::paging::page_table::entry_present(#[trigger] self.dir()[i])
                implies #[trigger] self.table(i)[j] == 0u32 by {
                if i < 16 {
                    lemma_make_entry(table_addrs@[i], 3u32);
                    assert(3u32 & 1u32 == 1u32) by (bit_vector);
                } else {
                    assert(self.dir()[i] == old(self).dir()[i]);
                    assert(self.table(i) == old(self).table(i));
                }
            }
            assert forall|v: u32| #[trigger] self.translate(v) == if pd_index(v) < 16 {
                Some(v)
            } else {
                old(self).translate(v)
            } by {
                lemma_index_bounds(v);
                let i = pd_index(v);
                let j = pt_index(v);
                if i < 16 {
                    lemma_make_entry(table_addrs@[i], 3u32);
                    assert(3u32 & 1u32 == 1u32) by (bit_vector);
                    let x = (i * 1024 + j) * 4096;
                    assert(0 <= x < 0x1_0000_0000) by (nonlinear_arith)
                        requires
                            0 <= i < 16,
                            0 <= j < 1024,
                            x == (i * 1024 + j) * 4096,
                    ;
                    let xu = x as u32;
                    assert(xu % 4096 == 0) by (nonlinear_arith)
                        requires
                            xu == (i * 1024 + j) * 4096,
                    ;
                    lemma_multiple_aligned(xu);
                    lemma_make_entry(xu, 3u32);
                    assert(xu == i * 4194304 + j * 4096);
                    lemma_identity_offset(v, xu);
                    assert(crate::paging::page_table::entry_present(self.dir()[i]));
                    assert(self.table(i)[j] == crate::paging::page_table::make_entry(xu, 3u32));
                    assert(crate::paging::page_table::entry_present(self.table(i)[j]));
                } else {
                    assert(self.dir()[i] == old(self).dir()[i]);
                    assert(self.table(i) == old(self).table(i));
                }
            }
        }
    }

    /// Map the pages of `[virt_start, virt_start + size)` to consecutive
    /// frames from `phys_start`: both starts are taken down to 4 KB and `size`
    /// is rounded up to whole pages; each page goes through `map_page`.
    pub fn map_range(
        &mut self,
        frames: &mut FrameAllocator,
        virt_start: u32,
        phys_start: u32,
        size: usize,
        writable: bool,
        user: bool,
    )
        requires
            old(self).wf(),
            old(frames).wf(),
            size + PAGE_SIZE <= usize::MAX,
            range_pages(size) > 0 ==> (virt_start & 0xFFFF_F000u32) + (range_pages(size) - 1) * 4096
                <= u32::MAX,
            range_pages(size) > 0 ==> (phys_start & 0xFFFF_F000u32) + (range_pages(size) - 1) * 4096
                <= u32::MAX,
            count_absent(old(self).dir(), range_first_table(virt_start), range_table_end(virt_start, size))
                <= old(frames).free_frames(),
            count_absent(old(self).dir(), range_first_table(virt_start), range_table_end(virt_start, size))
                > 0 ==> old(frames).alloc_in_bounds(),
        ensures
            final(self).wf(),
            final(frames).wf(),
            forall|w: u32| #[trigger] final(self).translate(w) == if (virt_start & 0xFFFF_F000u32) <= page_of(w)
                < (virt_start & 0xFFFF_F000u32) + range_pages(size) * 4096 {
                Some((((phys_start & 0xFFFF_F000u32) + (page_of(w) - (virt_start & 0xFFFF_F000u32))) as u32) | (w
                    & 0xFFFu32))
            } else {
                old(self).translate(w)
            },
            forall|p: int| 0 <= p < 1024 ==> #[trigger] final(self).dir()[p] == old(self).dir()[p] || (
            range_first_table(virt_start) <= p < range_table_end(virt_start, size)
                && crate::paging::page_table::entry_present(final(self).dir()[p])),
            forall|p: int|
                0 <= p < 1024 && !(range_first_table(virt_start) <= p < range_table_end(virt_start, size))
                    ==> #[trigger] final(self).table(p) == old(self).table(p),
            forall|j: int| 0 <= j < range_pages(size) ==> #[trigger] final(self).entry_of(page_at(virt_start & 0xFFFF_F000u32, j))
                == crate::paging::page_table::make_entry(page_at(phys_start & 0xFFFF_F000u32, j), pte_flags_for(writable, user)),
            final(frames).total() == old(frames).total(),
            final(frames).used_in_range() == old(frames).used_in_range() + count_absent(
                old(self).dir(),
                range_first_table(virt_start),
                range_table_end(virt_start, size),
            ),
            forall|k: int| 0 <= k < crate::paging::frame_allocator::MAX_FRAMES && old(frames).used_view()[k]
                ==> #[trigger] final(frames).used_view()[k],
    {
        let virt_base = virt_start & 0xFFFF_F000;
        let phys_base = phys_start & 0xFFFF_F000;
        let num_pages = (size + PAGE_SIZE - 1) / PAGE_SIZE;
        let ghost lo = range_first_table(virt_start);
        let ghost end = range_table_end(virt_start, size);
        let ghost old_count = count_absent(old(self).dir(), lo, end);
        proof {
            lemma_aligned_page(virt_start);
            lemma_aligned_page(phys_start);
            lemma_aligned_page(virt_base);
            lemma_aligned_page(phys_base);
            lemma_index_bounds(virt_base);
            lemma_pd_div(virt_base);
            if num_pages > 0 {
                lemma_index_bounds((virt_base + (num_pages - 1) * 4096) as u32);
                lemma_pd_div((virt_base + (num_pages - 1) * 4096) as u32);
            }
        }
        let mut i: usize = 0;
        while i < num_pages
            invariant
                0 <= i <= num_pages,
                num_pages == range_pages(size),
                virt_base == virt_start & 0xFFFF_F000u32,
                phys_base == phys_start & 0xFFFF_F000u32,
                virt_base % 4096 == 0,
                phys_base % 4096 == 0,
                num_pages > 0 ==> virt_base + (num_pages - 1) * 4096 <= u32::MAX,
                num_pages > 0 ==> phys_base + (num_pages - 1) * 4096 <= u32::MAX,
                lo == pd_index(virt_base),
                end == range_table_end(virt_start, size),
                lo <= end <= 1024,
                self.wf(),
                frames.wf(),
                old(self).wf(),
                old_count == count_absent(old(self).dir(), lo, end),
                forall|w: u32| #[trigger] self.translate(w) == if virt_base <= page_of(w) < virt_base + i * 4096 {
                    Some(((phys_base + (page_of(w) - virt_base)) as u32) | (w & 0xFFFu32))
                } else {
                    old(self).translate(w)
                },
                forall|p: int| lo <= p < (if i < num_pages { pd_index((virt_base + i * 4096) as u32) } else { end })
                    ==> crate::paging::page_table::entry_present(#[trigger] self.dir()[p]),
                i < num_pages ==> lo <= pd_index((virt_base + i * 4096) as u32) < end,
                forall|p: int| 0 <= p < 1024 ==> #[trigger] self.dir()[p] == old(self).dir()[p] || (lo <= p < end
                    && crate::paging::page_table::entry_present(self.dir()[p])),
                forall|p: int| 0 <= p < 1024 && !(lo <= p < end) ==> #[trigger] self.table(p) == old(self).table(p),
                count_absent(self.dir(), lo, end) <= frames.free_frames(),
                count_absent(self.dir(), lo, end) > 0 ==> frames.alloc_in_bounds(),
                count_absent(self.dir(), lo, end) + frames.used_in_range() == old_count + old(frames).used_in_range(),
                frames.total() == old(frames).total(),
                forall|k: int| 0 <= k < crate::paging::frame_allocator::MAX_FRAMES && old(frames).used_view()[k]
                    ==> #[trigger] frames.used_view()[k],
                forall|j: int| 0 <= j < i ==> crate::paging::page_table::entry_present(self.dir()[pd_index(#[trigger] page_at(virt_base, j))]),
                forall|j: int| 0 <= j < i ==> #[trigger] self.entry_of(page_at(virt_base, j))
                    == crate::paging::page_table::make_entry(page_at(phys_base, j), pte_flags_for(writable, user)),
            decreases num_pages - i,
        {
            let offset = (i * PAGE_SIZE) as u32;
            let ghost v = (virt_base + i * 4096) as u32;
            let ghost pv = pd_index(v);
            proof {
                assert(offset == i * 4096);
                assert(virt_base + offset == virt_base + i * 4096);
                lemma_aligned_page(v);
                lemma_aligned_page((phys_base + i * 4096) as u32);
                lemma_index_bounds(v);
                if !crate::paging::page_table::entry_present(self.dir()[pv]) {
                    lemma_count_absent_pos(self.dir(), pv, lo, end);
                    crate::paging::frame_allocator::lemma_free_frame_exists(*frames);
                    crate::paging::frame_allocator::law_alloc_picks_free_frame(*frames);
                }
            }
            let ghost d0 = self.dir();
            let ghost f0 = *frames;
            let ghost s0 = *self;
            self.map_page(frames, virt_base + offset, phys_base + offset, writable, user);
            proof {
                let absent = !crate::paging::page_table::entry_present(d0[pv]);
                if absent {
                    crate::paging::frame_allocator::lemma_alloc_counts(f0, *frames, f0.next_alloc_index()->0);
                }
                lemma_make_entry_present_after_map(d0[pv], f0, user);
                lemma_count_absent_update(d0, pv, self.dir()[pv], lo, end);
                assert(self.dir() =~= d0.update(pv, self.dir()[pv]));
                lemma_pd_div(v);
                if i + 1 < num_pages {
                    lemma_pd_div((virt_base + (i + 1) * 4096) as u32);
                    lemma_index_bounds((virt_base + (i + 1) * 4096) as u32);
                    lemma_pd_div((virt_base + (num_pages - 1) * 4096) as u32);
                }
                assert forall|w: u32| #[trigger] self.translate(w) == if virt_base <= page_of(w) < virt_base + (i + 1) * 4096 {
                    Some(((phys_base + (page_of(w) - virt_base)) as u32) | (w & 0xFFFu32))
                } else {
                    old(self).translate(w)
                } by {
                    assert(s0.translate(w) == if virt_base <= page_of(w) < virt_base + i * 4096 {
                        Some(((phys_base + (page_of(w) - virt_base)) as u32) | (w & 0xFFFu32))
                    } else {
                        old(self).translate(w)
                    });
                    lemma_aligned_page(w);
                    assert(same_page(w, v) == (page_of(w) == v));
                    assert(((phys_base + offset) as u32) & 0xFFFF_F000u32 == phys_base + i * 4096);
                }
                assert forall|k: int| 0 <= k < crate::paging::frame_allocator::MAX_FRAMES && f0.used_view()[k]
                    implies #[trigger] frames.used_view()[k] by {}
                lemma_table_len(s0, pv);
                assert forall|j: int| 0 <= j < i + 1 implies crate::paging::page_table::entry_present(
                    self.dir()[pd_index(#[trigger] page_at(virt_base, j))],
                ) by {
                    lemma_index_bounds(page_at(virt_base, j));
                }
                assert forall|j: int| 0 <= j < i + 1 implies #[trigger] self.entry_of(page_at(virt_base, j))
                    == crate::paging::page_table::make_entry(page_at(phys_base, j), pte_flags_for(writable, user)) by {
                    let a = page_at(virt_base, j);
                    lemma_index_bounds(a);
                    if j < i {
                        assert(s0.entry_of(a) == crate::paging::page_table::make_entry(page_at(phys_base, j), pte_flags_for(writable, user)));
                        if pd_index(a) == pv {
                            assert(crate::paging::page_table::entry_present(d0[pv]));
                            lemma_aligned_page(a);
                            lemma_same_page_indices(a, v);
                            assert(pt_index(a) != pt_index(v));
                        }
                    } else {
                        assert(a == v);
                        assert(((phys_base + offset) as u32) & 0xFFFF_F000u32 == page_at(phys_base, j));
                        lemma_make_entry_mask(page_at(phys_base, j), pte_flags_for(writable, user));
                    }
                }
            }
            i = i + 1;
        }
        proof {
            lemma_count_absent_skip(self.dir(), lo, end, end);
        }
    }

    /// Unmap the pages of `[virt_start, virt_start + size)`: the start is
    /// taken down to 4 KB and `size` rounded up to whole pages; each page goes
    /// through `unmap_page`. The frames that were mapped are not freed; the
    /// frames of page tables above the identity map that are left empty are.
    pub fn unmap_range(&mut self, frames: &mut FrameAllocator, virt_start: u32, size: usize)
        requires
            old(self).wf(),
            old(frames).wf(),
            size + PAGE_SIZE <= usize::MAX,
            range_pages(size) > 0 ==> (virt_start & 0xFFFF_F000u32) + (range_pages(size) - 1) * 4096
                <= u32::MAX,
        ensures
            final(self).wf(),
            final(frames).wf(),
            forall|w: u32| #[trigger] final(self).translate(w) == if (virt_start & 0xFFFF_F000u32) <= page_of(w)
                < (virt_start & 0xFFFF_F000u32) + range_pages(size) * 4096 {
                None
            } else {
                old(self).translate(w)
            },
            forall|p: int| 0 <= p < 1024 ==> #[trigger] final(self).dir()[p] == old(self).dir()[p] || (
            range_first_table(virt_start) <= p < range_table_end(virt_start, size) && final(self).dir()[p] == 0u32),
            forall|p: int|
                0 <= p < 1024 && !(range_first_table(virt_start) <= p < range_table_end(virt_start, size))
                    ==> #[trigger] final(self).table(p) == old(self).table(p),
            final(frames).total() == old(frames).total(),
            forall|k: int| 0 <= k < crate::paging::frame_allocator::MAX_FRAMES ==> #[trigger] final(frames).used_view()[k] == (
            old(frames).used_view()[k] && !reclaimed(
                old(self).dir(),
                final(self).dir(),
                range_first_table(virt_start),
                range_table_end(virt_start, size),
                old(frames).total(),
                k,
            )),
    {
        let virt_base = virt_start & 0xFFFF_F000;
        let num_pages = (size + PAGE_SIZE - 1) / PAGE_SIZE;
        let ghost lo = range_first_table(virt_start);
        let ghost end = range_table_end(virt_start, size);
        proof {
            lemma_aligned_page(virt_start);
            lemma_aligned_page(virt_base);
            lemma_index_bounds(virt_base);
            lemma_pd_div(virt_base);
            if num_pages > 0 {
                lemma_index_bounds((virt_base + (num_pages - 1) * 4096) as u32);
                lemma_pd_div((virt_base + (num_pages - 1) * 4096) as u32);
            }
            lemma_zero_not_present();
        }
        let mut i: usize = 0;
        while i < num_pages
            invariant
                0 <= i <= num_pages,
                num_pages == range_pages(size),
                virt_base == virt_start & 0xFFFF_F000u32,
                virt_base % 4096 == 0,
                num_pages > 0 ==> virt_base + (num_pages - 1) * 4096 <= u32::MAX,
                lo == pd_index(virt_base),
                end == range_table_end(virt_start, size),
                lo <= end <= 1024,
                self.wf(),
                frames.wf(),
                i < num_pages ==> lo <= pd_index((virt_base + i * 4096) as u32) < end,
                forall|w: u32| #[trigger] self.translate(w) == if virt_base <= page_of(w) < virt_base + i * 4096 {
                    None
                } else {
                    old(self).translate(w)
                },
                forall|p: int| 0 <= p < 1024 ==> #[trigger] self.dir()[p] == old(self).dir()[p] || (lo <= p < end
                    && self.dir()[p] == 0u32),
                forall|p: int| 0 <= p < 1024 && !(lo <= p < end) ==> #[trigger] self.table(p) == old(self).table(p),
                frames.total() == old(frames).total(),
                forall|k: int| 0 <= k < crate::paging::frame_allocator::MAX_FRAMES ==> #[trigger] frames.used_view()[k] == (
                old(frames).used_view()[k] && !reclaimed(old(self).dir(), self.dir(), lo, end, old(frames).total(), k)),
            decreases num_pages - i,
        {
            let offset = (i * PAGE_SIZE) as u32;
            let ghost v = (virt_base + i * 4096) as u32;
            let ghost f0 = *frames;
            let ghost s0 = *self;
            proof {
                assert(offset == i * 4096);
                lemma_aligned_page(v);
                lemma_index_bounds(v);
            }
            self.unmap_page(frames, virt_base + offset);
            proof {
                lemma_pd_div(v);
                if i + 1 < num_pages {
                    lemma_pd_div((virt_base + (i + 1) * 4096) as u32);
                    lemma_pd_div((virt_base + (num_pages - 1) * 4096) as u32);
                }
                assert forall|w: u32| #[trigger] self.translate(w) == if virt_base <= page_of(w) < virt_base + (i + 1) * 4096 {
                    None
                } else {
                    old(self).translate(w)
                } by {
                    assert(s0.translate(w) == if virt_base <= page_of(w) < virt_base + i * 4096 {
                        None
                    } else {
                        old(self).translate(w)
                    });
                    lemma_aligned_page(w);
                    assert(same_page(w, v) == (page_of(w) == v));
                }
                assert forall|p: int| 0 <= p < 1024 implies #[trigger] self.dir()[p] == old(self).dir()[p] || (lo <= p < end
                    && self.dir()[p] == 0u32) by {
                    assert(s0.dir()[p] == old(self).dir()[p] || (lo <= p < end && s0.dir()[p] == 0u32));
                }
                assert forall|p: int| 0 <= p < 1024 && !(lo <= p < end) implies #[trigger] self.table(p) == old(self).table(p) by {
                    assert(s0.table(p) == old(self).table(p));
                }
                let pv = pd_index(v);
                let e = s0.dir()[pv];
                let idx = (e & 0xFFFF_F000u32) as int / 4096;
                let d_old = old(self).dir();
                let t = s0.table(pv).update(pt_index(v), 0u32);
                let reclaim = pv >= NUM_IDENTITY_PTS && forall|j: int| 0 <= j < 1024 ==> t[j] == 0u32;
                lemma_zero_not_present();
                assert forall|k: int| 0 <= k < crate::paging::frame_allocator::MAX_FRAMES implies #[trigger] frames.used_view()[k] == (
                old(frames).used_view()[k] && !reclaimed(d_old, self.dir(), lo, end, old(frames).total(), k)) by {
                    assert(f0.used_view()[k] == (old(frames).used_view()[k] && !reclaimed(d_old, s0.dir(), lo, end, old(frames).total(), k)));
                    if !crate::paging::page_table::entry_present(e) || !reclaim {
                        assert(self.dir() == s0.dir());
                        assert(*frames == f0);
                    } else {
                        assert(self.dir() == s0.dir().update(pv, 0u32));
                        assert(e == d_old[pv]);
                        if reclaimed(d_old, s0.dir(), lo, end, old(frames).total(), k) {
                            let q = choose|q: int| #![trigger s0.dir()[q]] lo <= q < end && crate::paging::page_table::entry_present(d_old[q])
                                && s0.dir()[q] == 0u32 && (d_old[q] & 0xFFFF_F000u32) / 4096 == k && k < old(frames).total();
                            assert(q != pv);
                            assert(self.dir()[q] == 0u32);
                        }
                        if reclaimed(d_old, self.dir(), lo, end, old(frames).total(), k) {
                            let q = choose|q: int| #![trigger self.dir()[q]] lo <= q < end && crate::paging::page_table::entry_present(d_old[q])
                                && self.dir()[q] == 0u32 && (d_old[q] & 0xFFFF_F000u32) / 4096 == k && k < old(frames).total();
                            if q != pv {
                                assert(s0.dir()[q] == 0u32);
                            }
                        }
                        if k == idx && k < old(frames).total() {
                            assert(self.dir()[pv] == 0u32);
                            assert(reclaimed(d_old, self.dir(), lo, end, old(frames).total(), k));
                        }
                    }
                }
            }
            i = i + 1;
        }
    }

    /// Translate a virtual address to its physical address; `None` when the
    /// page is not mapped.
    pub fn get_physical_address(&self, virt_addr: u32) -> (r: Option<u32>)
        requires
            self.wf(),
        ensures
            r == self.translate(virt_addr),
    {
        proof {
            lemma_index_bounds(virt_addr);
        }
        let pd_index = ((virt_addr >> 22) & 0x3FF) as usize;
        let pt_index = ((virt_addr >> 12) & 0x3FF) as usize;
        let offset = virt_addr & 0xFFF;
        if !self.directory.is_present(pd_index) {
            return None;
        }
        let pt = &self.tables[pd_index];
        if !pt.is_present(pt_index) {
            return None;
        }
        match pt.get_page_address(pt_index) {
            Some(page_addr) => Some(page_addr | offset),
            None => None,
        }
    }
}

/// Making entry `p` present lowers the count of non-present entries by one
/// when `p` lies in the range and was not present.
proof fn lemma_count_absent_update(d: Seq<u32>, p: int, val: u32, lo: int, hi: int)
    requires
        0 <= p < d.len(),
        0 <= lo,
        hi <= d.len(),
        crate::paging::page_table::entry_present(val),
    ensures
        count_absent(d.update(p, val), lo, hi) == count_absent(d, lo, hi) - (if lo <= p < hi
            && !crate::paging::page_table::entry_present(d[p]) { 1int } else { 0int }),
    decreases hi - lo,
{
    if lo < hi {
        lemma_count_absent_update(d, p, val, lo + 1, hi);
    }
}

/// Counting over the same entries gives the same count.
proof fn lemma_count_absent_same(d: Seq<u32>, e: Seq<u32>, lo: int, hi: int)
    requires
        forall|i: int| lo <= i < hi ==> d[i] == e[i],
    ensures
        count_absent(d, lo, hi) == count_absent(e, lo, hi),
    decreases hi - lo,
{
    if lo < hi {
        lemma_count_absent_same(d, e, lo + 1, hi);
    }
}

/// Present entries at the start of a range do not count.
proof fn lemma_count_absent_skip(d: Seq<u32>, lo: int, mid: int, hi: int)
    requires
        lo <= mid <= hi,
        forall|i: int| lo <= i < mid ==> crate::paging::page_table::entry_present(d[i]),
    ensures
        count_absent(d, lo, hi) == count_absent(d, mid, hi),
    decreases mid - lo,
{
    if lo < mid {
        lemma_count_absent_skip(d, lo + 1, mid, hi);
    }
}

/// A non-present entry in the range makes the count positive.
proof fn lemma_count_absent_pos(d: Seq<u32>, p: int, lo: int, hi: int)
    requires
        lo <= p < hi,
        !crate::paging::page_table::entry_present(d[p]),
    ensures
        count_absent(d, lo, hi) > 0,
    decreases p - lo,
{
    if lo < p {
        lemma_count_absent_pos(d, p, lo + 1, hi);
    }
}

/// Each page table has 1024 entries.
pub proof fn lemma_table_len(space: AddressSpace, i: int)
    ensures
        space.table(i).len() == 1024,
{
}

/// The directory index of an address is its quotient by 4 MB.
pub proof fn lemma_pd_div(x: u32)
    ensures
        pd_index(x) == x / 4194304,
{
    assert((x >> 22u32) & 0x3FFu32 == x / 4194304) by (bit_vector);
}

/// An address is aligned exactly when it is a multiple of 4096, and then it
/// is its own page.
proof fn lemma_aligned_page(x: u32)
    ensures
        (x & 0xFFFu32 == 0) == (x % 4096 == 0),
        x % 4096 == 0 ==> x & 0xFFFF_F000u32 == x,
        (x & 0xFFFF_F000u32) % 4096 == 0,
        x & 0xFFFF_F000u32 <= x,
{
    assert((x & 0xFFFu32 == 0) == (x % 4096 == 0) && (x % 4096 == 0 ==> x & 0xFFFF_F000u32 == x) && (x
        & 0xFFFF_F000u32) % 4096 == 0 && x & 0xFFFF_F000u32 <= x) by (bit_vector);
}

/// The directory entry `map_page` leaves is present.
proof fn lemma_make_entry_present_after_map(old_e: u32, frames: FrameAllocator, user: bool)
    requires
        frames.wf(),
        !crate::paging::page_table::entry_present(old_e) ==> frames.next_alloc_index() is Some,
    ensures
        crate::paging::page_table::entry_present(pde_after_map(
            old_e,
            match frames.next_alloc_index() {
                Some(idx) => (idx * PAGE_SIZE) as u32,
                None => 0u32,
            },
            user,
        )),
{
    lemma_promote_present(old_e);
    lemma_flags_present(false, user);
    if !crate::paging::page_table::entry_present(old_e) {
        let idx = frames.next_alloc_index()->0;
        crate::paging::frame_allocator::law_alloc_picks_free_frame(frames);
        assert(0 <= idx * PAGE_SIZE < 0x1_0000_0000);
        let f = (idx * PAGE_SIZE) as u32;
        assert(f % 4096 == 0);
        lemma_multiple_aligned(f);
        lemma_make_entry(f, pde_flags_for(user));
    }
}

/// The directory entry of a page `map_page` mapped is present afterwards.
pub proof fn lemma_page_table_present_after_map(
    a: AddressSpace,
    b: AddressSpace,
    frames: FrameAllocator,
    virt_addr: u32,
    writable: bool,
    user: bool,
)
    requires
        frames.wf(),
        !crate::paging::page_table::entry_present(a.dir()[pd_index(virt_addr)]) ==> frames.next_alloc_index() is Some,
        b.dir() == a.dir().update(
            pd_index(virt_addr),
            pde_after_map(
                a.dir()[pd_index(virt_addr)],
                match frames.next_alloc_index() {
                    Some(idx) => (idx * PAGE_SIZE) as u32,
                    None => 0u32,
                },
                user,
            ),
        ),
        a.dir().len() == 1024,
    ensures
        crate::paging::page_table::entry_present(b.dir()[pd_index(virt_addr)]),
{
    lemma_index_bounds(virt_addr);
    lemma_make_entry_present_after_map(a.dir()[pd_index(virt_addr)], frames, user);
}

/// An address is aligned exactly when it is a multiple of 4096, and then it
/// is its own page.
pub proof fn lemma_aligned_page_pub(x: u32)
    ensures
        (x & 0xFFFu32 == 0) == (x % 4096 == 0),
        x % 4096 == 0 ==> x & 0xFFFF_F000u32 == x,
        (x & 0xFFFF_F000u32) % 4096 == 0,
        x & 0xFFFF_F000u32 <= x,
{
    lemma_aligned_page(x);
}

/// Both indices of an address lie below 1024.
pub proof fn lemma_index_bounds(v: u32)
    ensures
        0 <= pd_index(v) < 1024,
        0 <= pt_index(v) < 1024,
{
    assert((v >> 22u32) & 0x3FFu32 < 1024 && (v >> 12u32) & 0x3FFu32 < 1024) by (bit_vector);
}

/// The zero entry is not present.
pub proof fn lemma_zero_not_present()
    ensures
        !crate::paging::page_table::entry_present(0u32),
{
    assert(0u32 & 1u32 == 0u32) by (bit_vector);
}

/// Two addresses lie in the same page exactly when both indices agree.
pub proof fn lemma_same_page_indices(a: u32, b: u32)
    ensures
        same_page(a, b) <==> (pd_index(a) == pd_index(b) && pt_index(a) == pt_index(b)),
{
    assert((a & 0xFFFF_F000u32 == b & 0xFFFF_F000u32) <==> ((a >> 22u32) & 0x3FFu32 == (b >> 22u32)
        & 0x3FFu32 && (a >> 12u32) & 0x3FFu32 == (b >> 12u32) & 0x3FFu32)) by (bit_vector);
}

/// Building an entry takes the address down to its page.
proof fn lemma_make_entry_mask(a: u32, f: u32)
    ensures
        crate::paging::page_table::make_entry(a & 0xFFFF_F000u32, f) == crate::paging::page_table::make_entry(a, f),
{
    assert(((a & 0xFFFF_F000u32) & 0xFFFF_F000u32) | (f & 0xFFFu32) == (a & 0xFFFF_F000u32) | (f & 0xFFFu32))
        by (bit_vector);
}

/// An entry built from an aligned address keeps that address in its upper
/// bits, and is present when the flags have the present bit.
proof fn lemma_make_entry(a: u32, f: u32)
    requires
        a & 0xFFFu32 == 0,
    ensures
        crate::paging::page_table::make_entry(a, f) & 0xFFFF_F000u32 == a,
        f & 1u32 == 1u32 ==> crate::paging::page_table::entry_present(
            crate::paging::page_table::make_entry(a, f),
        ),
{
    assert(((a & 0xFFFF_F000u32) | (f & 0xFFFu32)) & 0xFFFF_F000u32 == a) by (bit_vector)
        requires
            a & 0xFFFu32 == 0,
    ;
    assert(f & 1u32 == 1u32 ==> ((a & 0xFFFF_F000u32) | (f & 0xFFFu32)) & 1u32 != 0u32) by (bit_vector);
}

/// The page base rebuilt from both indices, with the offset of `v`, is `v`.
proof fn lemma_identity_offset(v: u32, x: u32)
    requires
        x == pd_index(v) * 4194304 + pt_index(v) * 4096,
    ensures
        x | (v & 0xFFFu32) == v,
{
    assert(x == ((v >> 22u32) & 0x3FFu32) * 4194304 + ((v >> 12u32) & 0x3FFu32) * 4096 ==> x | (v
        & 0xFFFu32) == v) by (bit_vector);
}

/// Masking off the low 12 bits leaves an aligned address.
proof fn lemma_mask_aligned(a: u32)
    ensures
        (a & 0xFFFF_F000u32) & 0xFFFu32 == 0,
{
    assert((a & 0xFFFF_F000u32) & 0xFFFu32 == 0) by (bit_vector);
}

/// A multiple of 4096 that fits in 32 bits is aligned.
proof fn lemma_multiple_aligned(x: u32)
    requires
        x % 4096 == 0,
    ensures
        x & 0xFFFu32 == 0,
{
    assert(x % 4096 == 0 ==> x & 0xFFFu32 == 0) by (bit_vector);
}

/// Setting the user bit keeps an entry present.
proof fn lemma_promote_present(e: u32)
    ensures
        crate::paging::page_table::entry_present(e) ==> crate::paging::page_table::entry_present(e | 4u32),
{
    assert(e & 1u32 != 0u32 ==> (e | 4u32) & 1u32 != 0u32) by (bit_vector);
}

/// The flags `map_page` writes have the present bit.
proof fn lemma_flags_present(writable: bool, user: bool)
    ensures
        pte_flags_for(writable, user) & 1u32 == 1u32,
        pde_flags_for(user) & 1u32 == 1u32,
{
    assert((1u32 | 2u32) & 1u32 == 1u32 && ((1u32 | 2u32) | 4u32) & 1u32 == 1u32 && (1u32 | 4u32) & 1u32 == 1u32
        && 1u32 & 1u32 == 1u32 && (3u32 | 4u32) & 1u32 == 1u32 && 3u32 & 1u32 == 1u32) by (bit_vector);
}


/// Mapping a page and then unmapping it leaves that page unmapped and every
/// other page translating as before the mapping; when the page was not
/// mapped before, every address translates as it did.
pub proof fn law_unmap_undoes_map(s0: AddressSpace, s1: AddressSpace, s2: AddressSpace, virt: u32, phys: u32)
    requires
        forall|w: u32| #[trigger] s1.translate(w) == if same_page(w, virt) {
            Some((phys & 0xFFFF_F000u32) | (w & 0xFFFu32))
        } else {
            s0.translate(w)
        },
        forall|w: u32| #[trigger] s2.translate(w) == if same_page(w, virt) { None } else { s1.translate(w) },
    ensures
        forall|w: u32| #[trigger] s2.translate(w) == if same_page(w, virt) { None } else { s0.translate(w) },
        s0.translate(virt) is None ==> forall|w: u32| #[trigger] s2.translate(w) == s0.translate(w),
{
    assert forall|w: u32| #[trigger] s2.translate(w) == if same_page(w, virt) { None } else { s0.translate(w) } by {
        assert(s1.translate(w) == if same_page(w, virt) {
            Some((phys & 0xFFFF_F000u32) | (w & 0xFFFu32))
        } else {
            s0.translate(w)
        });
    }
    if s0.translate(virt) is None {
        assert forall|w: u32| #[trigger] s2.translate(w) == s0.translate(w) by {
            lemma_same_page_indices(w, virt);
        }
    }
}


/// Mapping a page whose directory entry above the identity map is empty,
/// then unmapping it, gives back the directory and every page table, and
/// the frame allocator's bitmap and counter; the frame the table took is
/// the next one handed out again.
pub proof fn law_unmap_restores_tables_and_frames(
    s0: AddressSpace,
    s1: AddressSpace,
    s2: AddressSpace,
    f0: FrameAllocator,
    f1: FrameAllocator,
    f2: FrameAllocator,
    virt: u32,
    phys: u32,
    writable: bool,
    user: bool,
)
    requires
        s0.wf(),
        f0.wf(),
        pd_index(virt) >= NUM_IDENTITY_PTS,
        s0.dir()[pd_index(virt)] == 0u32,
        f0.next_alloc_index() is Some,
        map_page_effect(s0, s1, f0, f1, virt, phys, writable, user),
        unmap_page_effect(s1, s2, f1, f2, virt),
    ensures
        s2.dir() == s0.dir(),
        forall|i: int| 0 <= i < 1024 ==> #[trigger] s2.table(i) == s0.table(i),
        f2.used_view() == f0.used_view(),
        f2.used() == f0.used(),
        f2.total() == f0.total(),
        f2.next_alloc_index() == f0.next_alloc_index(),
{
    let pd = pd_index(virt);
    let pt = pt_index(virt);
    lemma_index_bounds(virt);
    lemma_zero_not_present();
    let idx = f0.next_alloc_index()->0;
    crate::paging::frame_allocator::law_alloc_picks_free_frame(f0);
    let frame = (idx * PAGE_SIZE) as u32;
    assert(frame as int == idx * 4096);
    assert(frame % 4096 == 0);
    lemma_multiple_aligned(frame);
    lemma_make_entry(frame, pde_flags_for(user));
    lemma_flags_present(writable, user);
    let e = s1.dir()[pd];
    assert(e == crate::paging::page_table::make_entry(frame, pde_flags_for(user)));
    assert(crate::paging::page_table::entry_present(e));
    let t = s1.table(pd).update(pt, 0u32);
    assert forall|j: int| 0 <= j < 1024 implies t[j] == 0u32 by {}
    assert(s2.dir() =~= s0.dir());
    lemma_table_len(s0, pd);
    assert(s2.table(pd) =~= s0.table(pd));
    assert(e & 0xFFFF_F000u32 == frame);
    crate::paging::frame_allocator::law_free_undoes_alloc(f0, f1, f2, idx);
}


/// The entry `map_page` writes for the page: present, pointing at the frame
/// of `phys`, with the writable bit (1) set exactly when `writable` was
/// asked, the user bit (2) exactly when `user` was asked, and no other flag.
pub proof fn law_mapped_entry_has_the_asked_rights(
    s0: AddressSpace,
    s1: AddressSpace,
    f0: FrameAllocator,
    f1: FrameAllocator,
    virt: u32,
    phys: u32,
    writable: bool,
    user: bool,
)
    requires
        map_page_effect(s0, s1, f0, f1, virt, phys, writable, user),
    ensures
        ({
            let e = s1.table(pd_index(virt))[pt_index(virt)];
            &&& e & 1u32 == 1u32
            &&& (e & 2u32 != 0u32) == writable
            &&& (e & 4u32 != 0u32) == user
            &&& e & 0xFF8u32 == 0u32
            &&& e & 0xFFFF_F000u32 == phys & 0xFFFF_F000u32
        }),
        ({
            let d0 = s0.dir()[pd_index(virt)];
            let d = s1.dir()[pd_index(virt)];
            &&& d & 1u32 == 1u32
            &&& user ==> d & 4u32 != 0u32
            &&& d0 & 1u32 == 0u32 ==> d & 2u32 != 0u32 && (d & 4u32 != 0u32) == user
            &&& d0 & 1u32 != 0u32 ==> d & 0xFFFF_F000u32 == d0 & 0xFFFF_F000u32 && d & 2u32 == d0 & 2u32
        }),
{
    lemma_index_bounds(virt);
    lemma_table_len(s0, pd_index(virt));
    lemma_entry_rights(phys, writable, user);
    let frame = match f0.next_alloc_index() {
        Some(idx) => (idx * PAGE_SIZE) as u32,
        None => 0u32,
    };
    lemma_dir_entry_rights(s0.dir()[pd_index(virt)], frame, user);
}

/// The bits of the directory entry `map_page` leaves.
proof fn lemma_dir_entry_rights(d0: u32, frame: u32, user: bool)
    by (bit_vector)
    ensures
        ({
            let d = pde_after_map(d0, frame, user);
            &&& d & 1u32 == 1u32
            &&& user ==> d & 4u32 != 0u32
            &&& d0 & 1u32 == 0u32 ==> d & 2u32 != 0u32 && (d & 4u32 != 0u32) == user
            &&& d0 & 1u32 != 0u32 ==> d & 0xFFFF_F000u32 == d0 & 0xFFFF_F000u32 && d & 2u32 == d0 & 2u32
        }),
{
}

/// The bits of a page table entry built with the flags `map_page` uses.
proof fn lemma_entry_rights(phys: u32, writable: bool, user: bool)
    by (bit_vector)
    ensures
        ({
            let e = crate::paging::page_table::make_entry(phys & 0xFFFF_F000u32, pte_flags_for(writable, user));
            &&& e & 1u32 == 1u32
            &&& (e & 2u32 != 0u32) == writable
            &&& (e & 4u32 != 0u32) == user
            &&& e & 0xFF8u32 == 0u32
            &&& e & 0xFFFF_F000u32 == phys & 0xFFFF_F000u32
        }),
{
}

} // verus!
