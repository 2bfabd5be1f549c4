//! The kernel heap: a first-fit free-list allocator over a virtual region
//! above the identity map, grown a page at a time by mapping fresh frames.
//!
//! The free list is kept in address order. Each free block records its
//! address and size; allocation carves the request out of the first block
//! that fits (splitting off alignment padding and the remainder when they are
//! large enough to be blocks of their own), and freeing puts a block back in
//! address order, merging it with the blocks right before and after it.
use vstd::prelude::*;
use crate::paging::mapper::{AddressSpace, PAGE_SIZE};
use crate::paging::frame_allocator::FrameAllocator;
use crate::paging::vma::VmaTable;

verus! {

/// Virtual start of the heap, just past the 64 MB identity map.
pub const HEAP_START: usize = 0x0400_0000;

/// Initial heap size in bytes (64 KB = 16 pages).
pub const HEAP_INIT_SIZE: usize = 65536;

/// Largest size the heap may grow to (4 MB).
pub const HEAP_MAX_SIZE: usize = 4194304;

/// Smallest block: a block header of two 32-bit words.
pub const MIN_BLOCK_SIZE: usize = 8;

/// A free block: `size` bytes from `addr`.
#[derive(Clone, Copy, PartialEq, Eq, Structural, Debug)]
pub struct FreeBlock {
    /// First byte of the block.
    pub addr: usize,
    /// Size of the block in bytes.
    pub size: usize,
}

/// `addr` rounded up to a multiple of `align` (a power of two).
pub open spec fn align_up_spec(addr: usize, align: usize) -> usize {
    ((addr + align - 1) as usize) & !((align - 1) as usize)
}

/// Whether `align` is a power of two.
pub open spec fn is_power_of_two(align: usize) -> bool {
    align > 0 && align & ((align - 1) as usize) == 0
}

/// Round `addr` up to a multiple of `align` (a power of two).
pub fn align_up(addr: usize, align: usize) -> (r: usize)
    requires
        align > 0,
        addr + align <= usize::MAX,
    ensures
        r == align_up_spec(addr, align),
{
    (addr + align - 1) & !(align - 1)
}

/// Rounding up to a power of two stays at or above `addr`, by less than
/// `align`.
proof fn lemma_align_up_bounds(addr: usize, align: usize)
    requires
        is_power_of_two(align),
        addr + align <= usize::MAX,
    ensures
        addr <= align_up_spec(addr, align) < addr + align,
{
    let s = (addr + align - 1) as usize;
    let m = (align - 1) as usize;
    assert(align & m == 0 && align > 0 && s == addr + m && s >= addr ==> (s & !m) >= addr && (s & !m) <= s) by (bit_vector);
}

/// The size a request of `size` bytes takes: at least a block header.
pub open spec fn request_size(size: usize) -> usize {
    if size > MIN_BLOCK_SIZE { size } else { MIN_BLOCK_SIZE }
}

/// Bytes lost to alignment at the start of `b`.
pub open spec fn padding(b: FreeBlock, align: usize) -> int {
    align_up_spec(b.addr, align) - b.addr
}

/// Whether a request of `n` bytes at `align` fits in `b`.
pub open spec fn fits(b: FreeBlock, n: usize, align: usize) -> bool {
    b.size >= padding(b, align) + n
}

/// The address the request gets from `b`: the block's start rounded up to
/// the alignment.
pub open spec fn carve_addr(b: FreeBlock, n: usize, align: usize) -> usize {
    align_up_spec(b.addr, align)
}

/// What is left of `b` on the free list after carving the request out of
/// it: the padding before the request when it is large enough to be a
/// block, and the remainder after the request when it is. Shorter padding
/// or remainder is not kept.
pub open spec fn carve_rest(b: FreeBlock, n: usize, align: usize) -> Seq<FreeBlock> {
    let pad = padding(b, align);
    let start = carve_addr(b, n, align);
    let cur_size = b.size - pad;
    let rem = cur_size - n;
    (if pad >= MIN_BLOCK_SIZE { seq![FreeBlock { addr: b.addr, size: pad as usize }] } else { Seq::empty() })
        + (if rem >= MIN_BLOCK_SIZE { seq![FreeBlock { addr: (start + n) as usize, size: rem as usize }] } else { Seq::empty() })
}

/// `i` is the first block of `list` that the request fits in.
pub open spec fn first_fit(list: Seq<FreeBlock>, i: int, n: usize, align: usize) -> bool {
    &&& 0 <= i < list.len()
    &&& fits(list[i], n, align)
    &&& forall|j: int| 0 <= j < i ==> !fits(#[trigger] list[j], n, align)
}

/// Some block of `list` fits the request.
pub open spec fn some_fit(list: Seq<FreeBlock>, n: usize, align: usize) -> bool {
    exists|i: int| 0 <= i < list.len() && fits(#[trigger] list[i], n, align)
}

/// The list after carving the request out of block `i`.
pub open spec fn carve_list(list: Seq<FreeBlock>, i: int, n: usize, align: usize) -> Seq<FreeBlock> {
    list.take(i) + carve_rest(list[i], n, align) + list.skip(i + 1)
}

/// First-fit allocation of `n` bytes at `align` from `list` gives address
/// `p` and leaves `after`.
pub open spec fn carved(list: Seq<FreeBlock>, n: usize, align: usize, p: usize, after: Seq<FreeBlock>) -> bool {
    exists|i: int| #![trigger list[i]]
        first_fit(list, i, n, align) && p == carve_addr(list[i], n, align) && after == carve_list(list, i, n, align)
}

/// The blocks the first-fit walk looks at can be aligned, measured and split
/// without overflow: each block up to the first that fits.
pub open spec fn walk_in_bounds(list: Seq<FreeBlock>, n: usize, align: usize) -> bool {
    forall|i: int|
        0 <= i < list.len() && (forall|j: int| 0 <= j < i ==> !fits(#[trigger] list[j], n, align)) ==> {
            &&& (#[trigger] list[i]).addr + align <= usize::MAX
            &&& list[i].addr + list[i].size <= usize::MAX
            &&& padding(list[i], align) + n <= usize::MAX
        }
}

/// Where a block at `addr` goes in `list`: before the first block that does
/// not start below `addr`.
pub open spec fn insert_pos(list: Seq<FreeBlock>, addr: usize) -> int
    decreases list.len(),
{
    if list.len() == 0 || list[0].addr >= addr {
        0
    } else {
        1 + insert_pos(list.drop_first(), addr)
    }
}

/// `list` with `blk` put in at `insert_pos`, merged with the next block when
/// it ends where that one starts, then with the previous block when that one
/// ends where `blk` starts.
pub open spec fn inserted(list: Seq<FreeBlock>, blk: FreeBlock) -> Seq<FreeBlock> {
    let k = insert_pos(list, blk.addr);
    let merge_next = k < list.len() && blk.addr + blk.size == list[k].addr;
    let b1 = if merge_next { FreeBlock { addr: blk.addr, size: (blk.size + list[k].size) as usize } } else { blk };
    let rest = if merge_next { list.skip(k + 1) } else { list.skip(k) };
    if k > 0 && list[k - 1].addr + list[k - 1].size == blk.addr {
        list.take(k - 1) + seq![FreeBlock { addr: list[k - 1].addr, size: (list[k - 1].size + b1.size) as usize }] + rest
    } else {
        list.take(k) + seq![b1] + rest
    }
}

/// Putting `blk` back computes its end, a merged size and a previous end
/// without overflow.
pub open spec fn insert_in_bounds(list: Seq<FreeBlock>, blk: FreeBlock) -> bool {
    let k = insert_pos(list, blk.addr);
    &&& k < list.len() ==> blk.addr + blk.size <= usize::MAX
    &&& (k < list.len() && blk.addr + blk.size == list[k].addr) ==> blk.size + list[k].size <= usize::MAX
    &&& k > 0 ==> list[k - 1].addr + list[k - 1].size <= usize::MAX
    &&& (k > 0 && list[k - 1].addr + list[k - 1].size == blk.addr) ==> list[k - 1].size + blk.size + (
        if k < list.len() && blk.addr + blk.size == list[k].addr { list[k].size as int } else { 0 }) <= usize::MAX
}

/// Sum of the sizes of the blocks.
pub open spec fn total_size(list: Seq<FreeBlock>) -> nat
    decreases list.len(),
{
    if list.len() == 0 {
        0
    } else {
        total_size(list.drop_last()) + list.last().size as nat
    }
}

/// The insert position is the number of leading blocks below `addr`.
proof fn lemma_insert_pos(list: Seq<FreeBlock>, addr: usize)
    ensures
        0 <= insert_pos(list, addr) <= list.len(),
        forall|j: int| 0 <= j < insert_pos(list, addr) ==> #[trigger] list[j].addr < addr,
        insert_pos(list, addr) < list.len() ==> list[insert_pos(list, addr)].addr >= addr,
    decreases list.len(),
{
    if list.len() > 0 && list[0].addr < addr {
        lemma_insert_pos(list.drop_first(), addr);
        assert forall|j: int| 0 <= j < insert_pos(list, addr) implies #[trigger] list[j].addr < addr by {
            if j > 0 {
                assert(list[j] == list.drop_first()[j - 1]);
            }
        }
    }
}

/// The blocks are at least a header long, lie in `[lo, hi)`, and come in
/// address order without overlapping.
pub open spec fn blocks_ok(list: Seq<FreeBlock>, lo: int, hi: int) -> bool {
    &&& forall|i: int| 0 <= i < list.len() ==> {
        &&& (#[trigger] list[i]).size >= MIN_BLOCK_SIZE
        &&& lo <= list[i].addr
        &&& list[i].addr + list[i].size <= hi
    }
    &&& forall|i: int, j: int| 0 <= i < j < list.len() ==> (#[trigger] list[i]).addr + list[i].size <= (#[trigger] list[j]).addr
}

/// `blk` overlaps none of the blocks.
pub open spec fn disjoint_from(list: Seq<FreeBlock>, blk: FreeBlock) -> bool {
    forall|i: int| 0 <= i < list.len() ==> (#[trigger] list[i]).addr + list[i].size <= blk.addr || blk.addr + blk.size <= list[i].addr
}

/// Blocks in order within `[lo, hi)` add up to at most `hi - lo` bytes.
proof fn lemma_total_bound(list: Seq<FreeBlock>, lo: int, hi: int)
    requires
        blocks_ok(list, lo, hi),
        lo <= hi,
    ensures
        total_size(list) <= hi - lo,
        list.len() > 0 ==> total_size(list) <= list.last().addr + list.last().size - lo,
    decreases list.len(),
{
    if list.len() > 0 {
        let init = list.drop_last();
        assert(blocks_ok(init, lo, hi)) by {
            assert forall|i: int, j: int| 0 <= i < j < init.len() implies (#[trigger] init[i]).addr + init[i].size <= (#[trigger] init[j]).addr by {
                assert(init[i] == list[i] && init[j] == list[j]);
            }
        }
        lemma_total_bound(init, lo, hi);
        if init.len() > 0 {
            assert(init.last() == list[list.len() - 2]);
        }
    }
}

/// The heap's books balance: the bytes handed out and the free bytes fit
/// in the mapped region, which never shrinks below its initial size.
pub open spec fn accounted(heap: KernelHeap) -> bool {
    &&& heap.allocated() + total_size(heap.blocks()) <= heap.end() - HEAP_START
    &&& heap.end() >= HEAP_START + HEAP_INIT_SIZE
}

/// The heap with `out` as the blocks handed out and not yet given back:
/// it is set up, its books balance, its free list is fully merged, the
/// bytes handed out are the sizes of `out`, and the blocks of `out` lie in
/// the heap apart from each other and from every free block.
pub open spec fn books(heap: KernelHeap, out: Seq<FreeBlock>) -> bool {
    &&& heap.ready()
    &&& accounted(heap)
    &&& coalesced(heap.blocks())
    &&& heap.allocated() == total_size(out)
    &&& ledger(heap.blocks(), heap.end() as int, out)
}

/// The kernel heap: the free list, the end of the mapped region and the
/// number of bytes handed out.
pub struct KernelHeap {
    free_list: Vec<FreeBlock>,
    mapped_end: usize,
    allocated_bytes: usize,
}

impl KernelHeap {
    /// The free list, in list order.
    pub closed spec fn blocks(&self) -> Seq<FreeBlock> {
        self.free_list@
    }

    /// One past the end of the mapped region (0 before `init`).
    pub closed spec fn end(&self) -> nat {
        self.mapped_end as nat
    }

    /// Bytes handed out, net of frees.
    pub closed spec fn allocated(&self) -> nat {
        self.allocated_bytes as nat
    }

    /// The heap has been set up: its region starts at `HEAP_START`, ends on
    /// a page boundary at most `HEAP_MAX_SIZE` further, and its free blocks
    /// lie in it in address order without overlapping.
    pub open spec fn ready(&self) -> bool {
        &&& HEAP_START <= self.end() <= HEAP_START + HEAP_MAX_SIZE
        &&& self.end() % 4096 == 0
        &&& blocks_ok(self.blocks(), HEAP_START as int, self.end() as int)
    }

    /// A heap before `init`: nothing mapped, nothing free.
    pub fn new() -> (r: Self)
        ensures
            r.blocks() == Seq::<FreeBlock>::empty(),
            r.end() == 0,
            r.allocated() == 0,
    {
        KernelHeap { free_list: Vec::new(), mapped_end: 0, allocated_bytes: 0 }
    }

    /// The free blocks, in list order.
    pub fn free_blocks(&self) -> (r: &Vec<FreeBlock>)
        ensures
            r@ == self.blocks(),
    {
        &self.free_list
    }

    /// Number of bytes handed out, net of frees.
    pub fn used(&self) -> (r: usize)
        ensures
            r == self.allocated(),
    {
        self.allocated_bytes
    }

    /// Size of the mapped region (0 before `init`).
    pub fn total(&self) -> (r: usize)
        ensures
            r == if self.end() >= HEAP_START { self.end() - HEAP_START } else { 0 },
    {
        self.mapped_end.saturating_sub(HEAP_START)
    }

    /// Put `block` back on the free list in address order, merging it with
    /// the next block when it ends where that one starts, then with the
    /// previous block when that one ends where it starts.
    pub fn free_list_insert(&mut self, block: FreeBlock)
        requires
            insert_in_bounds(old(self).blocks(), block),
        ensures
            final(self).blocks() == inserted(old(self).blocks(), block),
            final(self).end() == old(self).end(),
            final(self).allocated() == old(self).allocated(),
    {
        let ghost list = self.blocks();
        proof {
            lemma_insert_pos(list, block.addr);
        }
        let mut k: usize = 0;
        while k < self.free_list.len() && self.free_list[k].addr < block.addr
            invariant
                *self == *old(self),
                list == self.blocks(),
                k <= insert_pos(list, block.addr),
                0 <= insert_pos(list, block.addr) <= list.len(),
                forall|j: int| 0 <= j < insert_pos(list, block.addr) ==> #[trigger] list[j].addr < block.addr,
                insert_pos(list, block.addr) < list.len() ==> list[insert_pos(list, block.addr)].addr >= block.addr,
            decreases list.len() - k,
        {
            k = k + 1;
        }
        assert(k == insert_pos(list, block.addr));
        let mut b = block;
        let merge_next = k < self.free_list.len() && block.addr + block.size == self.free_list[k].addr;
        if merge_next {
            b = FreeBlock { addr: block.addr, size: block.size + self.free_list[k].size };
            self.free_list.set(k, b);
        } else {
            self.free_list.insert(k, b);
        }
        let ghost mid = self.blocks();
        if k > 0 {
            let prev = self.free_list[k - 1];
            assert(prev == list[k - 1]);
            if prev.addr + prev.size == block.addr {
                self.free_list.set(k - 1, FreeBlock { addr: prev.addr, size: prev.size + b.size });
                self.free_list.remove(k);
            }
        }
        assert(self.blocks() =~= inserted(list, block));
    }

    /// Whether a free block already fits `size` bytes at `align`, so that
    /// `allocate` need not grow the heap. A block whose rounding or sizing
    /// would overflow counts as not fitting; when no block up to the first
    /// that fits overflows, the answer is exact.
    pub fn fits_without_growing(&self, size: usize, align: usize) -> (r: bool)
        requires
            is_power_of_two(align),
        ensures
            r ==> some_fit(self.blocks(), request_size(size), align),
            walk_in_bounds(self.blocks(), request_size(size), align) ==> r == some_fit(
                self.blocks(),
                request_size(size),
                align,
            ),
    {
        let n = if size > MIN_BLOCK_SIZE { size } else { MIN_BLOCK_SIZE };
        let mut i: usize = 0;
        while i < self.free_list.len()
            invariant
                i <= self.blocks().len(),
                is_power_of_two(align),
                n == request_size(size),
                walk_in_bounds(self.blocks(), n, align) ==> forall|j: int| 0 <= j < i ==> !fits(
                    #[trigger] self.blocks()[j],
                    n,
                    align,
                ),
            decreases self.blocks().len() - i,
        {
            let b = self.free_list[i];
            assert(self.blocks()[i as int] == b);
            if let Some(_) = b.addr.checked_add(align) {
                proof {
                    lemma_align_up_bounds(b.addr, align);
                }
                let aligned = align_up(b.addr, align);
                let pad = aligned - b.addr;
                if let Some(need) = pad.checked_add(n) {
                    if b.size >= need {
                        return true;
                    }
                }
            }
            i = i + 1;
        }
        false
    }

    /// Number of bytes on the free list.
    pub fn free(&self) -> (r: usize)
        requires
            total_size(self.blocks()) <= usize::MAX,
        ensures
            r == total_size(self.blocks()),
    {
        let mut total_free: usize = 0;
        let mut i: usize = 0;
        while i < self.free_list.len()
            invariant
                i <= self.blocks().len(),
                total_size(self.blocks()) <= usize::MAX,
                total_free == total_size(self.blocks().take(i as int)),
            decreases self.blocks().len() - i,
        {
            proof {
                assert(self.blocks().take(i as int + 1).drop_last() =~= self.blocks().take(i as int));
                lemma_total_size_prefix(self.blocks(), i as int + 1);
            }
            total_free = total_free + self.free_list[i].size;
            i = i + 1;
        }
        proof {
            assert(self.blocks().take(self.blocks().len() as int) =~= self.blocks());
        }
        total_free
    }

    /// Return the `size` bytes at `ptr` to the free list (a request takes at
    /// least a block header), and take them off the handed-out count (not
    /// below 0).
    pub fn dealloc(&mut self, ptr: usize, size: usize)
        requires
            insert_in_bounds(old(self).blocks(), FreeBlock { addr: ptr, size: request_size(size) }),
        ensures
            final(self).blocks() == inserted(old(self).blocks(), FreeBlock { addr: ptr, size: request_size(size) }),
            old(self).ready() && HEAP_START <= ptr && ptr + request_size(size) <= old(self).end()
                && disjoint_from(old(self).blocks(), FreeBlock { addr: ptr, size: request_size(size) }) ==> final(self).ready()
                && total_size(final(self).blocks()) == total_size(old(self).blocks()) + request_size(size),
            final(self).end() == old(self).end(),
            old(self).ready() && HEAP_START <= ptr && ptr + request_size(size) <= old(self).end()
                && disjoint_from(old(self).blocks(), FreeBlock { addr: ptr, size: request_size(size) })
                && old(self).allocated() >= request_size(size) && accounted(*old(self)) ==> accounted(*final(self)),
            final(self).allocated() == if old(self).allocated() >= request_size(size) {
                old(self).allocated() - request_size(size)
            } else {
                0
            },
            forall|out: Seq<FreeBlock>, k: int|
                #![trigger books(*old(self), out), out[k]]
                books(*old(self), out) && 0 <= k < out.len() && out[k] == (FreeBlock { addr: ptr, size: request_size(size) })
                    ==> books(*final(self), out.remove(k)),
    {
        let ghost h0 = *self;
        let alloc_size = if size > MIN_BLOCK_SIZE { size } else { MIN_BLOCK_SIZE };
        let block = FreeBlock { addr: ptr, size: alloc_size };
        proof {
            if self.ready() && HEAP_START <= ptr && ptr + alloc_size <= self.end() && disjoint_from(self.blocks(), block) {
                law_free_returns_block(self.blocks(), block, HEAP_START as int, self.end() as int);
            }
        }
        self.free_list_insert(block);
        self.allocated_bytes = self.allocated_bytes.saturating_sub(alloc_size);
        proof {
            assert forall|out: Seq<FreeBlock>, k: int|
                #![trigger books(h0, out), out[k]]
                books(h0, out) && 0 <= k < out.len() && out[k] == block implies books(*self, out.remove(k)) by {
                lemma_ledger_free(h0.blocks(), h0.end() as int, out, k);
                law_free_returns_block(h0.blocks(), block, HEAP_START as int, h0.end() as int);
                law_free_keeps_coalesced(h0.blocks(), block, HEAP_START as int, h0.end() as int);
                lemma_total_remove(out, k);
            }
        }
    }

    /// Carve a request of `alloc_size` bytes at `align` out of the free
    /// block at `idx`, which it fits in, and return its address.
    fn carve(&mut self, idx: usize, alloc_size: usize, align: usize) -> (p: usize)
        requires
            idx < old(self).blocks().len(),
            is_power_of_two(align),
            fits(old(self).blocks()[idx as int], alloc_size, align),
            old(self).blocks()[idx as int].addr + align <= usize::MAX,
            old(self).blocks()[idx as int].addr + old(self).blocks()[idx as int].size <= usize::MAX,
            old(self).allocated() + alloc_size <= usize::MAX,
        ensures
            p == carve_addr(old(self).blocks()[idx as int], alloc_size, align),
            final(self).blocks() == old(self).blocks().take(idx as int) + carve_rest(old(self).blocks()[idx as int], alloc_size, align)
                + old(self).blocks().skip(idx as int + 1),
            final(self).allocated() == old(self).allocated() + alloc_size,
            final(self).end() == old(self).end(),
    {
        let ghost old_list = self.blocks();
        let count = self.free_list.len();
        assert(idx < count);
        let block = self.free_list[idx];
        let next = idx + 1;
        proof {
            lemma_align_up_bounds(block.addr, align);
        }
        let aligned_start = align_up(block.addr, align);
        let padding = aligned_start - block.addr;
        let cursor_addr = aligned_start;
        let cursor_size = block.size - padding;
        let mut at = idx;
        if padding >= MIN_BLOCK_SIZE {
            self.free_list.set(idx, FreeBlock { addr: block.addr, size: padding });
            self.free_list.insert(next, FreeBlock { addr: aligned_start, size: cursor_size });
            at = next;
        }
        let remainder = cursor_size - alloc_size;
        if remainder >= MIN_BLOCK_SIZE {
            self.free_list.set(at, FreeBlock { addr: cursor_addr + alloc_size, size: remainder });
        } else {
            self.free_list.remove(at);
        }
        self.allocated_bytes = self.allocated_bytes + alloc_size;
        assert(self.blocks() =~= old_list.take(idx as int) + carve_rest(old_list[idx as int], alloc_size, align)
            + old_list.skip(idx as int + 1));
        cursor_addr
    }

    /// Carve `size` bytes at `align` out of the first free block they fit in
    /// and return their address; `None` when no block fits.
    pub fn alloc_inner(&mut self, size: usize, align: usize) -> (r: Option<usize>)
        requires
            is_power_of_two(align),
            walk_in_bounds(old(self).blocks(), request_size(size), align),
            old(self).allocated() + request_size(size) <= usize::MAX,
        ensures
            final(self).end() == old(self).end(),
            r is Some <==> some_fit(old(self).blocks(), request_size(size), align),
            r matches Some(p) ==> aligned_to(p, align),
            match r {
                Some(p) => carved(old(self).blocks(), request_size(size), align, p, final(self).blocks())
                    && final(self).allocated() == old(self).allocated() + request_size(size),
                None => final(self).blocks() == old(self).blocks() && final(self).allocated() == old(self).allocated(),
            },
    {
        let alloc_size = if size > MIN_BLOCK_SIZE { size } else { MIN_BLOCK_SIZE };
        let mut idx: usize = 0;
        while idx < self.free_list.len()
            invariant
                idx <= self.blocks().len(),
                *self == *old(self),
                alloc_size == request_size(size),
                is_power_of_two(align),
                walk_in_bounds(self.blocks(), alloc_size, align),
                self.allocated() + alloc_size <= usize::MAX,
                forall|j: int| 0 <= j < idx ==> !fits(#[trigger] self.blocks()[j], alloc_size, align),
            decreases self.blocks().len() - idx,
        {
            let block = self.free_list[idx];
            proof {
                assert(self.blocks()[idx as int] == block);
                lemma_align_up_bounds(block.addr, align);
            }
            let aligned_start = align_up(block.addr, align);
            let padding = aligned_start - block.addr;
            if block.size >= padding + alloc_size {
                let ghost old_list = self.blocks();
                let p = self.carve(idx, alloc_size, align);
                assert(first_fit(old_list, idx as int, alloc_size, align));
                assert(old_list[idx as int] == block);
                proof {
                    lemma_align_up_aligned(block.addr, align);
                }
                return Some(p);
            }
            idx = idx + 1;
        }
        None
    }
}

/// `fs` are the frames now backing the pages from `start` on: each was a
/// free tracked frame of `f0` and is used in `f1`, no two are the same, page
/// `j` translates to `fs[j]` through a present, writable, supervisor-only
/// entry, and every other address translates as before.
pub open spec fn fresh_backing(
    s0: AddressSpace,
    s1: AddressSpace,
    f0: FrameAllocator,
    f1: FrameAllocator,
    start: int,
    fs: Seq<u32>,
) -> bool {
    &&& forall|j: int| 0 <= j < fs.len() ==> {
        &&& (#[trigger] fs[j]) % 4096 == 0
        &&& fs[j] / 4096 < f0.total()
        &&& !f0.used_view()[fs[j] as int / 4096]
        &&& f1.used_view()[fs[j] as int / 4096]
    }
    &&& forall|j: int, k: int| 0 <= j < k < fs.len() ==> #[trigger] fs[j] != #[trigger] fs[k]
    &&& forall|w: u32| #[trigger] s1.translate(w) == if start <= crate::paging::mapper::page_of(w) < start + fs.len() * 4096 {
        Some(fs[(crate::paging::mapper::page_of(w) - start) / 4096] | (w & 0xFFFu32))
    } else {
        s0.translate(w)
    }
    &&& forall|j: int| 0 <= j < fs.len() ==> #[trigger] page_entry(s1, start + j * 4096) == crate::paging::page_table::make_entry(
        fs[j],
        crate::paging::mapper::pte_flags_for(true, false),
    )
}

/// The page table entry of the page at `v`.
pub open spec fn page_entry(space: AddressSpace, v: int) -> u32 {
    space.table(crate::paging::mapper::pd_index(v as u32))[crate::paging::mapper::pt_index(v as u32)]
}

/// Pages `j` and `i` of a run of `n` pages from `start` that lies in one
/// directory slot share that slot and differ in their table slot.
proof fn lemma_run_indices(start: int, n: int, j: int, i: int)
    requires
        start % 4096 == 0,
        0 <= start,
        start + n * 4096 <= u32::MAX + 1,
        0 <= j < i < n,
        crate::paging::mapper::pd_index((start + (n - 1) * 4096) as u32) == crate::paging::mapper::pd_index(start as u32),
    ensures
        crate::paging::mapper::pd_index((start + j * 4096) as u32) == crate::paging::mapper::pd_index(start as u32),
        crate::paging::mapper::pt_index((start + j * 4096) as u32) != crate::paging::mapper::pt_index((start + i * 4096) as u32),
{
    let a = (start + j * 4096) as u32;
    let b = (start + i * 4096) as u32;
    crate::paging::mapper::lemma_pd_div(a);
    crate::paging::mapper::lemma_pd_div(b);
    crate::paging::mapper::lemma_pd_div(start as u32);
    crate::paging::mapper::lemma_pd_div((start + (n - 1) * 4096) as u32);
    crate::paging::mapper::lemma_aligned_page_pub(a);
    crate::paging::mapper::lemma_aligned_page_pub(b);
    crate::paging::mapper::lemma_same_page_indices(a, b);
}

/// With no pages mapped, nothing changed backs no page.
proof fn lemma_no_backing(s: AddressSpace, f: FrameAllocator, start: int)
    ensures
        fresh_backing(s, s, f, f, start, Seq::<u32>::empty()),
{
}

/// Whether the page table for the pages from `start` is not present yet.
pub open spec fn table_missing(space: AddressSpace, start: int) -> bool {
    !crate::paging::page_table::entry_present(space.dir()[crate::paging::mapper::pd_index(start as u32)])
}

/// Map `n` pages from `start`, each to a fresh frame from `frames`
/// (writable, supervisor only). Stops and returns `false` at the first page
/// for which no frame is left; the pages mapped so far stay mapped. Also
/// hands back the frames used, in page order.
fn map_fresh_pages(space: &mut AddressSpace, frames: &mut FrameAllocator, start: usize, n: usize) -> (r: (bool, Ghost<Seq<u32>>))
    requires
        old(space).wf(),
        old(frames).wf(),
        start % 4096 == 0,
        start + n * 4096 <= u32::MAX + 1,
        n > 0 ==> crate::paging::mapper::pd_index((start + (n - 1) * 4096) as u32) == crate::paging::mapper::pd_index(start as u32),
        n > 0 ==> old(frames).alloc_in_bounds(),
        n > 0 ==> !(table_missing(*old(space), start as int) && old(frames).free_frames() == 1),
    ensures
        final(space).wf(),
        final(frames).wf(),
        final(frames).total() == old(frames).total(),
        fresh_backing(*old(space), *final(space), *old(frames), *final(frames), start as int, r.1@),
        r.1@.len() <= n,
        r.0 <==> r.1@.len() == n,
        r.0 == (n == 0 || old(frames).free_frames() >= n + if table_missing(*old(space), start as int) { 1int } else { 0int }),
        final(frames).free_frames() == old(frames).free_frames() - r.1@.len() - if r.1@.len() > 0 && table_missing(*old(space), start as int) { 1int } else { 0int },
        forall|k: int| 0 <= k < crate::paging::frame_allocator::MAX_FRAMES && old(frames).used_view()[k] ==> #[trigger] final(frames).used_view()[k],
{
    let ghost s0 = *space;
    let ghost f0 = *frames;
    let ghost p = crate::paging::mapper::pd_index(start as u32);
    let ghost missing = table_missing(s0, start as int);
    let ghost mut fs: Seq<u32> = Seq::empty();
    let mut i: usize = 0;
    while i < n
        invariant
            0 <= i <= n,
            fs.len() == i,
            s0 == *old(space),
            f0 == *old(frames),
            p == crate::paging::mapper::pd_index(start as u32),
            missing == table_missing(s0, start as int),
            start % 4096 == 0,
            start + n * 4096 <= u32::MAX + 1,
            n > 0 ==> crate::paging::mapper::pd_index((start + (n - 1) * 4096) as u32) == p,
            n > 0 ==> !(missing && f0.free_frames() == 1),
            space.wf(),
            frames.wf(),
            n > 0 ==> frames.alloc_in_bounds(),
            frames.total() == f0.total(),
            i > 0 ==> crate::paging::page_table::entry_present(space.dir()[p]),
            i == 0 ==> *space == s0 && *frames == f0,
            frames.free_frames() == f0.free_frames() - i - if i > 0 && missing { 1int } else { 0int },
            forall|k: int| 0 <= k < crate::paging::frame_allocator::MAX_FRAMES && f0.used_view()[k] ==> #[trigger] frames.used_view()[k],
            fresh_backing(s0, *space, f0, *frames, start as int, fs),
        decreases n - i,
    {
        let virt = (start + i * PAGE_SIZE) as u32;
        let ghost sp = *space;
        let ghost fp = *frames;
        proof {
            crate::paging::frame_allocator::law_alloc_picks_free_frame(fp);
            if fp.free_frames() > 0 {
                crate::paging::frame_allocator::lemma_free_frame_exists(fp);
            }
            if fp.has_free_in(0, fp.total() as int) {
                crate::paging::frame_allocator::lemma_free_frames_positive(fp);
            }
        }
        let frame = match frames.alloc_frame() {
            Some(f) => f,
            None => {
                return (false, Ghost(fs));
            },
        };
        let ghost fa = *frames;
        let ghost idx = fp.next_alloc_index()->0;
        proof {
            crate::paging::frame_allocator::lemma_alloc_counts(fp, fa, idx);
            assert(0 <= idx * 4096 < 0x1_0000_0000);
            assert(frame == idx * 4096);
            crate::paging::mapper::lemma_pd_div(virt);
            crate::paging::mapper::lemma_pd_div(start as u32);
            crate::paging::mapper::lemma_pd_div((start + (n - 1) * 4096) as u32);
            assert(crate::paging::mapper::pd_index(virt) == p);
            if !crate::paging::page_table::entry_present(sp.dir()[p]) {
                crate::paging::frame_allocator::lemma_free_frame_exists(fa);
                crate::paging::frame_allocator::law_alloc_picks_free_frame(fa);
            }
        }
        space.map_page(frames, virt, frame, true, false);
        proof {
            if !crate::paging::page_table::entry_present(sp.dir()[p]) {
                crate::paging::frame_allocator::lemma_alloc_counts(fa, *frames, fa.next_alloc_index()->0);
            }
            assert(crate::paging::page_table::entry_present(space.dir()[p])) by {
                crate::paging::mapper::lemma_page_table_present_after_map(sp, *space, fa, virt, true, false);
            }
            let fs2 = fs.push(frame);
            crate::paging::mapper::lemma_aligned_page_pub(virt);
            crate::paging::mapper::lemma_aligned_page_pub(frame);
            assert forall|w: u32| #[trigger] space.translate(w) == if start <= crate::paging::mapper::page_of(w) < start + fs2.len() * 4096 {
                Some(fs2[(crate::paging::mapper::page_of(w) - start) / 4096] | (w & 0xFFFu32))
            } else {
                s0.translate(w)
            } by {
                crate::paging::mapper::lemma_aligned_page_pub(w);
                assert(sp.translate(w) == if start <= crate::paging::mapper::page_of(w) < start + fs.len() * 4096 {
                    Some(fs[(crate::paging::mapper::page_of(w) - start) / 4096] | (w & 0xFFFu32))
                } else {
                    s0.translate(w)
                });
                assert(crate::paging::mapper::same_page(w, virt) == (crate::paging::mapper::page_of(w) == virt));
            }
            assert forall|j: int| 0 <= j < fs2.len() implies {
                &&& (#[trigger] fs2[j]) % 4096 == 0
                &&& fs2[j] / 4096 < f0.total()
                &&& !f0.used_view()[fs2[j] as int / 4096]
                &&& frames.used_view()[fs2[j] as int / 4096]
            } by {
                if j < fs.len() {
                    assert(fp.used_view()[fs[j] as int / 4096]);
                    assert(frames.used_view()[fs[j] as int / 4096]);
                } else {
                    assert(fs2[j] / 4096 == idx);
                    assert(fa.used_view()[idx]);
                }
            }
            assert forall|j: int, k: int| 0 <= j < k < fs2.len() implies #[trigger] fs2[j] != #[trigger] fs2[k] by {
                if k == fs.len() {
                    assert(fp.used_view()[fs[j] as int / 4096]);
                }
            }
            crate::paging::mapper::lemma_index_bounds(virt);
            crate::paging::mapper::lemma_table_len(sp, p);
            assert forall|j: int| 0 <= j < fs2.len() implies #[trigger] page_entry(*space, start + j * 4096)
                == crate::paging::page_table::make_entry(fs2[j], crate::paging::mapper::pte_flags_for(true, false)) by {
                if j < fs.len() {
                    let a = (start + j * 4096) as u32;
                    lemma_run_indices(start as int, n as int, j, i as int);
                    crate::paging::mapper::lemma_index_bounds(a);
                    assert(crate::paging::page_table::entry_present(sp.dir()[p]));
                    assert(space.table(p) == sp.table(p).update(
                        crate::paging::mapper::pt_index(virt),
                        crate::paging::page_table::make_entry(frame & 0xFFFF_F000u32, crate::paging::mapper::pte_flags_for(true, false)),
                    ));
                    assert(page_entry(sp, start + j * 4096) == crate::paging::page_table::make_entry(
                        fs[j],
                        crate::paging::mapper::pte_flags_for(true, false),
                    ));
                    assert(page_entry(*space, start + j * 4096) == page_entry(sp, start + j * 4096));
                } else {
                    assert(virt == (start + j * 4096) as u32);
                    assert(frame % 4096 == 0);
                    assert(frame & 0xFFFF_F000u32 == frame);
                }
            }
            fs = fs2;
        }
        i = i + 1;
    }
    proof {
        crate::paging::frame_allocator::lemma_free_frames_nonneg(*frames);
    }
    (true, Ghost(fs))
}

/// A set-up heap never has more bytes free than it has mapped.
pub proof fn law_free_bytes_within_heap(heap: KernelHeap)
    requires
        heap.ready(),
    ensures
        total_size(heap.blocks()) <= heap.end() - HEAP_START,
{
    lemma_total_bound(heap.blocks(), HEAP_START as int, heap.end() as int);
}

/// `extra` bytes rounded up to whole pages.
pub open spec fn grow_size(extra: usize) -> int {
    (extra + 4095) / 4096 * 4096
}

/// Number of frames mapping `pages` new pages at `start` takes: one per
/// page, and one for the page table when it is not there yet.
pub open spec fn frames_needed(space: AddressSpace, start: int, pages: int) -> int {
    pages + if table_missing(space, start) { 1int } else { 0int }
}

/// Blocks within `[lo, hi)` lie within any wider range.
proof fn lemma_blocks_ok_widen(list: Seq<FreeBlock>, lo: int, hi: int, hi2: int)
    requires
        blocks_ok(list, lo, hi),
        hi <= hi2,
    ensures
        blocks_ok(list, lo, hi2),
{
}

/// Every address of the heap region lies in its one directory slot.
proof fn lemma_heap_slot(v: u32)
    requires
        HEAP_START <= v < HEAP_START + HEAP_MAX_SIZE,
    ensures
        crate::paging::mapper::pd_index(v) == HEAP_START / 4194304,
{
    crate::paging::mapper::lemma_pd_div(v);
}

impl KernelHeap {
    /// Extend the mapped region by `extra_bytes` rounded up to whole pages:
    /// map each new page to a fresh frame, put one free block covering them
    /// on the free list, move the end, and stretch the heap's region in
    /// `vmas` to it. `false`, with the heap unchanged, when the heap would
    /// pass `HEAP_MAX_SIZE` (then nothing is mapped) or the frames run out
    /// (then the pages mapped so far stay mapped).
    #[verifier::spinoff_prover]
    pub fn grow_heap(
        &mut self,
        space: &mut AddressSpace,
        frames: &mut FrameAllocator,
        vmas: &mut VmaTable,
        extra_bytes: usize,
    ) -> (r: bool)
        requires
            old(self).ready(),
            old(space).wf(),
            old(frames).wf(),
            old(vmas).wf(),
            extra_bytes > 0,
            old(self).end() + extra_bytes + 4096 <= usize::MAX,
            old(self).end() + grow_size(extra_bytes) - HEAP_START <= HEAP_MAX_SIZE ==> old(frames).alloc_in_bounds() && !(
            table_missing(*old(space), old(self).end() as int) && old(frames).free_frames() == 1),
        ensures
            final(self).ready(),
            final(space).wf(),
            final(frames).wf(),
            final(vmas).wf(),
            final(frames).total() == old(frames).total(),
            final(self).allocated() == old(self).allocated(),
            accounted(*old(self)) ==> accounted(*final(self)),
            forall|out: Seq<FreeBlock>| #[trigger] books(*old(self), out) ==> books(*final(self), out),
            r == (old(self).end() + grow_size(extra_bytes) - HEAP_START <= HEAP_MAX_SIZE
                && old(frames).free_frames() >= frames_needed(*old(space), old(self).end() as int, grow_size(extra_bytes) / 4096)),
            old(self).end() + grow_size(extra_bytes) - HEAP_START > HEAP_MAX_SIZE ==> *final(space) == *old(space)
                && *final(frames) == *old(frames),
            exists|fs: Seq<u32>| #[trigger] fresh_backing(*old(space), *final(space), *old(frames), *final(frames), old(self).end() as int, fs)
                && (r ==> fs.len() == grow_size(extra_bytes) / 4096),
            r ==> final(self).blocks() == inserted(
                old(self).blocks(),
                FreeBlock { addr: old(self).end() as usize, size: grow_size(extra_bytes) as usize },
            ) && final(self).end() == old(self).end() + grow_size(extra_bytes)
                && crate::paging::vma::extended(
                old(vmas).slots(),
                HEAP_START as u32,
                (old(self).end() + grow_size(extra_bytes)) as u32,
                final(vmas).slots(),
            ),
            !r ==> final(self).blocks() == old(self).blocks() && final(self).end() == old(self).end() && *final(vmas) == *old(vmas),
    {
        let pages_needed = (extra_bytes + PAGE_SIZE - 1) / PAGE_SIZE;
        let grow_bytes = pages_needed * PAGE_SIZE;
        let new_end = self.mapped_end + grow_bytes;
        if new_end - HEAP_START > HEAP_MAX_SIZE {
            proof {
                lemma_no_backing(*space, *frames, self.end() as int);
            }
            return false;
        }
        let ghost s0 = *space;
        let ghost f0 = *frames;
        proof {
            lemma_heap_slot(self.mapped_end as u32);
            lemma_heap_slot((self.mapped_end + (pages_needed - 1) * 4096) as u32);
        }
        let (ok, fs) = map_fresh_pages(space, frames, self.mapped_end, pages_needed);
        assert(fresh_backing(s0, *space, f0, *frames, self.end() as int, fs@));
        if !ok {
            return false;
        }
        let ghost list = self.blocks();
        let block = FreeBlock { addr: self.mapped_end, size: grow_bytes };
        proof {
            lemma_blocks_ok_widen(list, HEAP_START as int, self.end() as int, new_end as int);
            law_free_returns_block(list, block, HEAP_START as int, new_end as int);
        }
        let ghost h0 = *self;
        self.free_list_insert(block);
        self.mapped_end = new_end;
        vmas.extend(HEAP_START as u32, new_end as u32);
        proof {
            assert forall|out: Seq<FreeBlock>| #[trigger] books(h0, out) implies books(*self, out) by {
                lemma_ledger_grow(list, h0.end() as int, grow_bytes as int, out);
                law_free_keeps_coalesced(list, block, HEAP_START as int, new_end as int);
            }
        }
        true
    }
}

impl KernelHeap {
    /// Map the initial `HEAP_INIT_SIZE` bytes at `HEAP_START`, each page to
    /// a fresh frame from `frames` (writable, supervisor only), and seed the
    /// free list with one block spanning them. Nothing is handed out yet.
    pub fn init(&mut self, space: &mut AddressSpace, frames: &mut FrameAllocator)
        requires
            old(space).wf(),
            old(frames).wf(),
            old(frames).alloc_in_bounds(),
            old(frames).free_frames() >= frames_needed(*old(space), HEAP_START as int, (HEAP_INIT_SIZE / 4096) as int),
        ensures
            final(self).ready(),
            final(self).blocks() == seq![FreeBlock { addr: HEAP_START, size: HEAP_INIT_SIZE }],
            final(self).end() == HEAP_START + HEAP_INIT_SIZE,
            final(self).allocated() == 0,
            accounted(*final(self)),
            books(*final(self), Seq::empty()),
            final(space).wf(),
            final(frames).wf(),
            final(frames).total() == old(frames).total(),
            final(frames).free_frames() == old(frames).free_frames() - frames_needed(*old(space), HEAP_START as int, (HEAP_INIT_SIZE / 4096) as int),
            exists|fs: Seq<u32>| #[trigger] fresh_backing(*old(space), *final(space), *old(frames), *final(frames), HEAP_START as int, fs)
                && fs.len() == HEAP_INIT_SIZE / 4096,
    {
        let num_pages = HEAP_INIT_SIZE / PAGE_SIZE;
        proof {
            lemma_heap_slot(HEAP_START as u32);
            lemma_heap_slot((HEAP_START + (num_pages - 1) * 4096) as u32);
        }
        let (ok, fs) = map_fresh_pages(space, frames, HEAP_START, num_pages);
        assert(ok);
        self.free_list = Vec::new();
        self.free_list.push(FreeBlock { addr: HEAP_START, size: HEAP_INIT_SIZE });
        self.mapped_end = HEAP_START + HEAP_INIT_SIZE;
        self.allocated_bytes = 0;
        proof {
            assert(self.blocks() =~= seq![FreeBlock { addr: HEAP_START, size: HEAP_INIT_SIZE }]);
            lemma_total_one(FreeBlock { addr: HEAP_START, size: HEAP_INIT_SIZE });
        }
    }
}

/// Carving a request out of a free block that it fits in: the bytes handed
/// out lie in that block and on no block left free, the blocks left stay in
/// order without overlapping within the same range, and the free bytes drop
/// by at least the size handed out.
pub proof fn law_carve_hands_out_free_bytes(list: Seq<FreeBlock>, i: int, n: usize, align: usize, lo: int, hi: int)
    requires
        blocks_ok(list, lo, hi),
        0 <= i < list.len(),
        is_power_of_two(align),
        list[i].addr + align <= usize::MAX,
        hi <= usize::MAX,
        fits(list[i], n, align),
        n > 0,
    ensures
        blocks_ok(carve_list(list, i, n, align), lo, hi),
        list[i].addr <= carve_addr(list[i], n, align),
        carve_addr(list[i], n, align) + n <= list[i].addr + list[i].size,
        disjoint_from(carve_list(list, i, n, align), FreeBlock { addr: carve_addr(list[i], n, align), size: n }),
        total_size(carve_list(list, i, n, align)) + n <= total_size(list),
        total_size(carve_list(list, i, n, align)) + n + 2 * MIN_BLOCK_SIZE > total_size(list),
        aligned_to(carve_addr(list[i], n, align), align),
{
    let b = list[i];
    lemma_align_up_aligned(b.addr, align);
    lemma_carve_rest_facts(b, n, align);
    let rest = carve_rest(b, n, align);
    let p = carve_addr(b, n, align);
    let after = carve_list(list, i, n, align);
    assert forall|j: int, k: int| 0 <= j < k < rest.len() implies (#[trigger] rest[j]).addr + rest[j].size <= (#[trigger] rest[k]).addr by {
        assert(j == 0 && k == 1);
    }
    assert forall|j: int| 0 <= j < after.len() implies {
        &&& (#[trigger] after[j]).size >= MIN_BLOCK_SIZE
        &&& lo <= after[j].addr
        &&& after[j].addr + after[j].size <= hi
        &&& (after[j].addr + after[j].size <= p || p + n <= after[j].addr)
    } by {
        if j < i {
            assert(after[j] == list[j]);
            assert(list[j].addr + list[j].size <= b.addr);
        } else if j < i + rest.len() {
            assert(after[j] == rest[j - i]);
        } else {
            assert(after[j] == list[j - rest.len() + 1]);
            assert(b.addr + b.size <= list[j - rest.len() + 1].addr);
        }
    }
    assert forall|j: int, k: int| 0 <= j < k < after.len() implies (#[trigger] after[j]).addr + after[j].size <= (#[trigger] after[k]).addr by {
        let jj = if j < i { j } else if j < i + rest.len() { -1 } else { j - rest.len() + 1 };
        let kk = if k < i { k } else if k < i + rest.len() { -1 } else { k - rest.len() + 1 };
        if j < i {
            assert(after[j] == list[j]);
        } else if j < i + rest.len() {
            assert(after[j] == rest[j - i]);
        } else {
            assert(after[j] == list[jj]);
        }
        if k < i {
            assert(after[k] == list[k]);
        } else if k < i + rest.len() {
            assert(after[k] == rest[k - i]);
            if j < i {
                assert(list[j].addr + list[j].size <= b.addr);
            }
        } else {
            assert(after[k] == list[kk]);
            if j < i {
                assert(list[j].addr + list[j].size <= list[kk].addr);
            } else if j < i + rest.len() {
                assert(b.addr + b.size <= list[kk].addr);
            }
        }
    }
    lemma_total_split(list, i);
    let t = list.skip(i);
    lemma_total_split(t, 1);
    assert(t.take(1) =~= seq![b]);
    lemma_total_one(b);
    assert(t.skip(1) =~= list.skip(i + 1));
    lemma_total_concat(list.take(i) + rest, list.skip(i + 1));
    lemma_total_concat(list.take(i), rest);
}

/// Carving a request out of a free block keeps a fully merged free list
/// fully merged: what is left of the block keeps its gaps to the blocks
/// around it, and the request lies between its two leftovers.
pub proof fn law_carve_keeps_coalesced(list: Seq<FreeBlock>, i: int, n: usize, align: usize, lo: int, hi: int)
    requires
        blocks_ok(list, lo, hi),
        coalesced(list),
        0 <= i < list.len(),
        is_power_of_two(align),
        list[i].addr + align <= usize::MAX,
        hi <= usize::MAX,
        fits(list[i], n, align),
        n > 0,
    ensures
        coalesced(carve_list(list, i, n, align)),
{
    let b = list[i];
    lemma_carve_rest_facts(b, n, align);
    lemma_align_up_bounds(b.addr, align);
    let rest = carve_rest(b, n, align);
    let after = carve_list(list, i, n, align);
    assert forall|j: int, k: int| 0 <= j < k < rest.len() implies (#[trigger] rest[j]).addr + rest[j].size < (#[trigger] rest[k]).addr by {
        assert(j == 0 && k == 1);
        assert(padding(b, align) >= MIN_BLOCK_SIZE);
        assert(rest[0].addr + rest[0].size == carve_addr(b, n, align));
        assert(rest[1].addr == carve_addr(b, n, align) + n);
    }
    assert forall|j: int, k: int| 0 <= j < k < after.len() implies (#[trigger] after[j]).addr + after[j].size < (#[trigger] after[k]).addr by {
        let jj = if j < i { j } else if j < i + rest.len() { -1 } else { j - rest.len() + 1 };
        let kk = if k < i { k } else if k < i + rest.len() { -1 } else { k - rest.len() + 1 };
        if j < i {
            assert(after[j] == list[j]);
        } else if j < i + rest.len() {
            assert(after[j] == rest[j - i]);
        } else {
            assert(after[j] == list[jj]);
        }
        if k < i {
            assert(after[k] == list[k]);
        } else if k < i + rest.len() {
            assert(after[k] == rest[k - i]);
            if j < i {
                assert(list[j].addr + list[j].size < b.addr);
            }
        } else {
            assert(after[k] == list[kk]);
            if j < i {
                assert(list[j].addr + list[j].size < list[kk].addr);
            } else if j < i + rest.len() {
                assert(b.addr + b.size < list[kk].addr);
            }
        }
    }
}

/// Two blocks share no byte.
pub open spec fn apart(a: FreeBlock, b: FreeBlock) -> bool {
    a.addr + a.size <= b.addr || b.addr + b.size <= a.addr
}

/// `out` are the blocks handed out and not yet given back: each lies in
/// the heap's region `[HEAP_START, end)`, is at least a header long and
/// shares no byte with a free block of `list` or with another of them.
pub open spec fn ledger(list: Seq<FreeBlock>, end: int, out: Seq<FreeBlock>) -> bool {
    &&& forall|k: int| 0 <= k < out.len() ==> {
        &&& HEAP_START <= (#[trigger] out[k]).addr
        &&& out[k].addr + out[k].size <= end
        &&& out[k].size >= MIN_BLOCK_SIZE
        &&& disjoint_from(list, out[k])
    }
    &&& forall|k1: int, k2: int| 0 <= k1 < k2 < out.len() ==> apart(#[trigger] out[k1], #[trigger] out[k2])
}

/// A block apart from every free block stays so when a request is carved
/// out of one of them.
proof fn lemma_carve_keeps_apart(list: Seq<FreeBlock>, i: int, n: usize, align: usize, lo: int, hi: int, o: FreeBlock)
    requires
        blocks_ok(list, lo, hi),
        0 <= i < list.len(),
        is_power_of_two(align),
        list[i].addr + align <= usize::MAX,
        hi <= usize::MAX,
        fits(list[i], n, align),
        disjoint_from(list, o),
    ensures
        disjoint_from(carve_list(list, i, n, align), o),
{
    let b = list[i];
    lemma_carve_rest_facts(b, n, align);
    let rest = carve_rest(b, n, align);
    let after = carve_list(list, i, n, align);
    assert forall|j: int| 0 <= j < after.len() implies (#[trigger] after[j]).addr + after[j].size <= o.addr || o.addr
        + o.size <= after[j].addr by {
        if j < i {
            assert(after[j] == list[j]);
        } else if j < i + rest.len() {
            assert(after[j] == rest[j - i]);
            assert(list[i].addr + list[i].size <= o.addr || o.addr + o.size <= list[i].addr);
        } else {
            assert(after[j] == list[j - rest.len() + 1]);
        }
    }
}

/// A block of positive size apart from every free block and from the block
/// put back stays apart from every free block once it is put back.
proof fn lemma_inserted_keeps_apart(list: Seq<FreeBlock>, blk: FreeBlock, lo: int, hi: int, o: FreeBlock)
    requires
        blocks_ok(list, lo, hi),
        blk.size >= MIN_BLOCK_SIZE,
        lo <= blk.addr,
        blk.addr + blk.size <= hi,
        lo <= hi <= usize::MAX,
        disjoint_from(list, blk),
        disjoint_from(list, o),
        apart(o, blk),
        o.size > 0,
    ensures
        disjoint_from(inserted(list, blk), o),
{
    lemma_insert_sides(list, blk, lo, hi);
    lemma_inserted_in_bounds(list, blk, lo, hi);
    lemma_inserted_shape(list, blk);
    let k = insert_pos(list, blk.addr);
    let head_len = insert_head_len(list, blk);
    let rest_start = insert_rest_start(list, blk);
    let mid = insert_mid(list, blk);
    let r = inserted(list, blk);
    assert(r.len() == head_len + 1 + (list.len() - rest_start));
    assert(mid.addr + mid.size == (if rest_start > k { list[k].addr + list[k].size } else { blk.addr + blk.size }));
    assert(mid.addr == (if head_len < k { list[k - 1].addr } else { blk.addr }));
    if head_len < k {
        assert(list[k - 1].addr + list[k - 1].size <= o.addr || o.addr + o.size <= list[k - 1].addr);
    }
    if rest_start > k {
        assert(list[k].addr + list[k].size <= o.addr || o.addr + o.size <= list[k].addr);
    }
    assert(mid.addr + mid.size <= o.addr || o.addr + o.size <= mid.addr);
    assert forall|j: int| 0 <= j < r.len() implies (#[trigger] r[j]).addr + r[j].size <= o.addr || o.addr + o.size
        <= r[j].addr by {
        if j < head_len {
            assert(r[j] == list[j]);
        } else if j == head_len {
            assert(r[j] == mid);
        } else {
            assert(r[j] == list[rest_start + (j - head_len - 1)]);
        }
    }
}

/// The sizes of a list with one block taken out add up to the total less
/// that block's size.
proof fn lemma_total_remove(list: Seq<FreeBlock>, k: int)
    requires
        0 <= k < list.len(),
    ensures
        total_size(list.remove(k)) + list[k].size == total_size(list),
{
    assert(list =~= list.take(k) + seq![list[k]] + list.skip(k + 1));
    assert(list.remove(k) =~= list.take(k) + list.skip(k + 1));
    lemma_total_concat(list.take(k) + seq![list[k]], list.skip(k + 1));
    lemma_total_concat(list.take(k), seq![list[k]]);
    lemma_total_concat(list.take(k), list.skip(k + 1));
    lemma_total_one(list[k]);
}

/// The sizes of a list with one more block add up to the total plus that
/// block's size.
proof fn lemma_total_push(list: Seq<FreeBlock>, b: FreeBlock)
    ensures
        total_size(list.push(b)) == total_size(list) + b.size,
{
    assert(list.push(b).drop_last() =~= list);
}

/// Carving a request out of free block `i` hands out bytes apart from every
/// block already handed out, and the ledger gains the new block.
proof fn lemma_ledger_carve(list: Seq<FreeBlock>, i: int, n: usize, align: usize, end: int, out: Seq<FreeBlock>)
    requires
        blocks_ok(list, HEAP_START as int, end),
        end <= usize::MAX,
        0 <= i < list.len(),
        is_power_of_two(align),
        list[i].addr + align <= usize::MAX,
        fits(list[i], n, align),
        n >= MIN_BLOCK_SIZE,
        ledger(list, end, out),
    ensures
        ledger(carve_list(list, i, n, align), end, out.push(FreeBlock { addr: carve_addr(list[i], n, align), size: n })),
{
    let blk = FreeBlock { addr: carve_addr(list[i], n, align), size: n };
    let after = carve_list(list, i, n, align);
    let out2 = out.push(blk);
    law_carve_hands_out_free_bytes(list, i, n, align, HEAP_START as int, end);
    assert forall|k: int| 0 <= k < out.len() implies disjoint_from(after, #[trigger] out[k]) && apart(out[k], blk) by {
        lemma_carve_keeps_apart(list, i, n, align, HEAP_START as int, end, out[k]);
        assert(list[i].addr + list[i].size <= out[k].addr || out[k].addr + out[k].size <= list[i].addr);
    }
    assert forall|k: int| 0 <= k < out2.len() implies {
        &&& HEAP_START <= (#[trigger] out2[k]).addr
        &&& out2[k].addr + out2[k].size <= end
        &&& out2[k].size >= MIN_BLOCK_SIZE
        &&& disjoint_from(after, out2[k])
    } by {
        if k < out.len() {
            assert(out2[k] == out[k]);
        }
    }
    assert forall|k1: int, k2: int| 0 <= k1 < k2 < out2.len() implies apart(#[trigger] out2[k1], #[trigger] out2[k2]) by {
        assert(out2[k1] == out[k1]);
        if k2 < out.len() {
            assert(out2[k2] == out[k2]);
        }
    }
}

/// Growing the heap by `g` bytes at its end puts a block on the free list
/// that no block handed out touches.
proof fn lemma_ledger_grow(list: Seq<FreeBlock>, end: int, g: int, out: Seq<FreeBlock>)
    requires
        blocks_ok(list, HEAP_START as int, end),
        HEAP_START <= end,
        g >= MIN_BLOCK_SIZE,
        end + g <= usize::MAX,
        ledger(list, end, out),
    ensures
        ledger(inserted(list, FreeBlock { addr: end as usize, size: g as usize }), end + g, out),
{
    let blk = FreeBlock { addr: end as usize, size: g as usize };
    assert forall|j: int| 0 <= j < list.len() implies (#[trigger] list[j]).addr + list[j].size <= blk.addr
        || blk.addr + blk.size <= list[j].addr by {}
    lemma_blocks_ok_widen(list, HEAP_START as int, end, end + g);
    assert forall|k: int| 0 <= k < out.len() implies disjoint_from(inserted(list, blk), #[trigger] out[k]) by {
        lemma_inserted_keeps_apart(list, blk, HEAP_START as int, end + g, out[k]);
    }
}

/// Carving a request out of free block `i` keeps the books, with the new
/// block added to those handed out.
proof fn lemma_books_carve(before: KernelHeap, after: KernelHeap, i: int, n: usize, align: usize, out: Seq<FreeBlock>)
    requires
        books(before, out),
        0 <= i < before.blocks().len(),
        is_power_of_two(align),
        before.blocks()[i].addr + align <= usize::MAX,
        fits(before.blocks()[i], n, align),
        n >= MIN_BLOCK_SIZE,
        after.ready(),
        after.blocks() == carve_list(before.blocks(), i, n, align),
        after.end() == before.end(),
        after.allocated() == before.allocated() + n,
    ensures
        books(after, out.push(FreeBlock { addr: carve_addr(before.blocks()[i], n, align), size: n })),
{
    let list = before.blocks();
    let end = before.end() as int;
    law_carve_hands_out_free_bytes(list, i, n, align, HEAP_START as int, end);
    lemma_ledger_carve(list, i, n, align, end, out);
    law_carve_keeps_coalesced(list, i, n, align, HEAP_START as int, end);
    lemma_total_push(out, FreeBlock { addr: carve_addr(list[i], n, align), size: n });
}

/// Putting back a block handed out is in bounds, and the ledger loses it.
proof fn lemma_ledger_free(list: Seq<FreeBlock>, end: int, out: Seq<FreeBlock>, k: int)
    requires
        blocks_ok(list, HEAP_START as int, end),
        end <= usize::MAX,
        ledger(list, end, out),
        0 <= k < out.len(),
    ensures
        insert_in_bounds(list, out[k]),
        ledger(inserted(list, out[k]), end, out.remove(k)),
{
    let blk = out[k];
    let out2 = out.remove(k);
    law_free_returns_block(list, blk, HEAP_START as int, end);
    assert forall|j: int| 0 <= j < out2.len() implies {
        &&& HEAP_START <= (#[trigger] out2[j]).addr
        &&& out2[j].addr + out2[j].size <= end
        &&& out2[j].size >= MIN_BLOCK_SIZE
        &&& disjoint_from(inserted(list, blk), out2[j])
    } by {
        let jj = if j < k { j } else { j + 1 };
        assert(out2[j] == out[jj]);
        if jj < k {
            assert(apart(out[jj], out[k]));
        } else {
            assert(apart(out[k], out[jj]));
        }
        lemma_inserted_keeps_apart(list, blk, HEAP_START as int, end, out2[j]);
    }
    assert forall|j1: int, j2: int| 0 <= j1 < j2 < out2.len() implies apart(#[trigger] out2[j1], #[trigger] out2[j2]) by {
        let a = if j1 < k { j1 } else { j1 + 1 };
        let b = if j2 < k { j2 } else { j2 + 1 };
        assert(out2[j1] == out[a] && out2[j2] == out[b]);
    }
}

/// While the books are kept, the bytes handed out and the free bytes fit in
/// the heap's region, which is whole pages, at least its initial size and
/// at most its largest size.
pub proof fn law_books_balance(heap: KernelHeap, out: Seq<FreeBlock>)
    requires
        books(heap, out),
    ensures
        heap.allocated() + total_size(heap.blocks()) <= heap.end() - HEAP_START,
        (heap.end() - HEAP_START) % 4096 == 0,
        HEAP_INIT_SIZE <= heap.end() - HEAP_START <= HEAP_MAX_SIZE,
{
}

/// A block handed out and not yet given back can be given back: it lies in
/// the heap, no free block touches it, `dealloc` accepts it, and the bytes
/// handed out cover it.
pub proof fn law_handed_out_block_can_be_freed(heap: KernelHeap, out: Seq<FreeBlock>, k: int)
    requires
        books(heap, out),
        0 <= k < out.len(),
    ensures
        HEAP_START <= out[k].addr,
        out[k].addr + out[k].size <= heap.end(),
        disjoint_from(heap.blocks(), out[k]),
        insert_in_bounds(heap.blocks(), out[k]),
        heap.allocated() >= out[k].size,
{
    lemma_ledger_free(heap.blocks(), heap.end() as int, out, k);
    lemma_total_remove(out, k);
}

/// Freeing the bytes an allocation handed out, with the size it was asked
/// for, keeps the free list in order without overlapping, and gives back all
/// the free bytes but for less than two block headers (alignment padding and
/// a tail each too small to be a block of its own).
pub proof fn law_alloc_then_free(list: Seq<FreeBlock>, i: int, n: usize, align: usize, lo: int, hi: int)
    requires
        blocks_ok(list, lo, hi),
        0 <= i < list.len(),
        is_power_of_two(align),
        list[i].addr + align <= usize::MAX,
        hi <= usize::MAX,
        first_fit(list, i, n, align),
        n >= MIN_BLOCK_SIZE,
    ensures
        blocks_ok(inserted(carve_list(list, i, n, align), FreeBlock { addr: carve_addr(list[i], n, align), size: n }), lo, hi),
        total_size(inserted(carve_list(list, i, n, align), FreeBlock { addr: carve_addr(list[i], n, align), size: n }))
            <= total_size(list),
        total_size(inserted(carve_list(list, i, n, align), FreeBlock { addr: carve_addr(list[i], n, align), size: n }))
            + 2 * MIN_BLOCK_SIZE > total_size(list),
{
    law_carve_hands_out_free_bytes(list, i, n, align, lo, hi);
    let after = carve_list(list, i, n, align);
    let blk = FreeBlock { addr: carve_addr(list[i], n, align), size: n };
    law_free_returns_block(after, blk, lo, hi);
}

/// In a heap's free list, the first-fit walk for a request of `size` bytes
/// at `align`, which a layout allows, computes nothing that overflows.
proof fn lemma_walk_in_bounds(list: Seq<FreeBlock>, end: int, size: usize, align: usize)
    requires
        blocks_ok(list, HEAP_START as int, end),
        end <= HEAP_START + HEAP_MAX_SIZE,
        is_power_of_two(align),
        size + align <= isize::MAX,
    ensures
        walk_in_bounds(list, request_size(size), align),
{
    assert forall|i: int| 0 <= i < list.len() implies {
        &&& (#[trigger] list[i]).addr + align <= usize::MAX
        &&& list[i].addr + list[i].size <= usize::MAX
        &&& padding(list[i], align) + request_size(size) <= usize::MAX
    } by {
        lemma_align_up_bounds(list[i].addr, align);
    }
}

/// After the heap grew by a block at least `n + align` long at its old end,
/// some block fits a request of `n` bytes at `align`.
proof fn lemma_grown_fits(list: Seq<FreeBlock>, blk: FreeBlock, end: int, n: usize, align: usize)
    requires
        blocks_ok(list, HEAP_START as int, end),
        blk.addr == end,
        blk.size >= n + align,
        blk.size >= MIN_BLOCK_SIZE,
        HEAP_START <= end,
        end + blk.size <= HEAP_START + HEAP_MAX_SIZE,
        is_power_of_two(align),
        align <= isize::MAX,
    ensures
        some_fit(inserted(list, blk), n, align),
{
    lemma_insert_pos(list, blk.addr);
    lemma_inserted_shape(list, blk);
    lemma_blocks_ok_widen(list, HEAP_START as int, end, end + blk.size);
    lemma_inserted_in_bounds(list, blk, HEAP_START as int, end + blk.size);
    let k = insert_pos(list, blk.addr);
    assert(k == list.len()) by {
        if k < list.len() {
            assert(list[k].addr + list[k].size <= end);
        }
    }
    let mid = insert_mid(list, blk);
    let h = insert_head_len(list, blk);
    assert(inserted(list, blk)[h] == mid);
    assert(mid.addr + mid.size == end + blk.size);
    lemma_align_up_bounds(mid.addr, align);
    assert(fits(mid, n, align));
}

/// `p` is a multiple of `align`, a power of two: its low bits are clear.
pub open spec fn aligned_to(p: usize, align: usize) -> bool {
    p & ((align - 1) as usize) == 0
}

/// Rounding up to a power of two gives a multiple of it.
pub proof fn lemma_align_up_aligned(addr: usize, align: usize)
    requires
        is_power_of_two(align),
        addr + align <= usize::MAX,
    ensures
        aligned_to(align_up_spec(addr, align), align),
{
    let s = (addr + align - 1) as usize;
    let m = (align - 1) as usize;
    assert((s & !m) & m == 0) by (bit_vector);
}

/// The blocks left of `b` after carving: each at least a header long, in
/// `b`, clear of the bytes handed out, and in order.
proof fn lemma_carve_rest_facts(b: FreeBlock, n: usize, align: usize)
    requires
        is_power_of_two(align),
        b.addr + align <= usize::MAX,
        b.addr + b.size <= usize::MAX,
        fits(b, n, align),
    ensures
        forall|j: int| 0 <= j < carve_rest(b, n, align).len() ==> {
            &&& (#[trigger] carve_rest(b, n, align)[j]).size >= MIN_BLOCK_SIZE
            &&& b.addr <= carve_rest(b, n, align)[j].addr
            &&& carve_rest(b, n, align)[j].addr + carve_rest(b, n, align)[j].size <= b.addr + b.size
            &&& (carve_rest(b, n, align)[j].addr + carve_rest(b, n, align)[j].size <= carve_addr(b, n, align)
                || carve_addr(b, n, align) + n <= carve_rest(b, n, align)[j].addr)
        },
        carve_rest(b, n, align).len() == 2 ==> carve_rest(b, n, align)[0].addr + carve_rest(b, n, align)[0].size
            <= carve_rest(b, n, align)[1].addr,
        carve_rest(b, n, align).len() <= 2,
        b.addr <= carve_addr(b, n, align),
        carve_addr(b, n, align) + n <= b.addr + b.size,
        total_size(carve_rest(b, n, align)) + n <= b.size,
        total_size(carve_rest(b, n, align)) + n + 2 * MIN_BLOCK_SIZE > b.size,
{
    lemma_align_up_bounds(b.addr, align);
    let pad = padding(b, align);
    let start = carve_addr(b, n, align);
    let cur_size = b.size - pad;
    let rem = cur_size - n;
    let front = FreeBlock { addr: b.addr, size: pad as usize };
    let back = FreeBlock { addr: (start + n) as usize, size: rem as usize };
    let rest = carve_rest(b, n, align);
    if pad >= MIN_BLOCK_SIZE {
        if rem >= MIN_BLOCK_SIZE {
            assert(rest =~= seq![front, back]);
            lemma_total_two(front, back);
        } else {
            assert(rest =~= seq![front]);
            lemma_total_one(front);
        }
    } else {
        if rem >= MIN_BLOCK_SIZE {
            assert(rest =~= seq![back]);
            lemma_total_one(back);
        } else {
            assert(rest =~= Seq::<FreeBlock>::empty());
        }
    }
}

/// How much `alloc` asks the heap to grow by when no block fits: what the
/// request takes with its alignment, but at least 64 KB, so that many small
/// requests do not grow it a page at a time.
pub open spec fn alloc_grow_bytes(size: usize, align: usize) -> int {
    let needed = request_size(size) + align;
    if needed > 65536 { needed } else { 65536 }
}

/// Whether growing the heap by `extra` bytes succeeds: it stays within
/// `HEAP_MAX_SIZE` and there are frames enough for the new pages.
pub open spec fn can_grow(heap: KernelHeap, space: AddressSpace, frames: FrameAllocator, extra: usize) -> bool {
    &&& heap.end() + grow_size(extra) - HEAP_START <= HEAP_MAX_SIZE
    &&& frames.free_frames() >= frames_needed(space, heap.end() as int, grow_size(extra) / 4096)
}

impl KernelHeap {
    /// Allocate `size` bytes (at least a block header) at `align` from the
    /// first free block they fit in. When none fits, grow the heap by what
    /// the request needs (at least 64 KB) and try once more; `None` when the
    /// heap cannot grow.
    #[verifier::spinoff_prover]
    pub fn allocate(
        &mut self,
        space: &mut AddressSpace,
        frames: &mut FrameAllocator,
        vmas: &mut VmaTable,
        size: usize,
        align: usize,
    ) -> (r: Option<usize>)
        requires
            old(self).ready(),
            old(space).wf(),
            old(frames).wf(),
            old(vmas).wf(),
            is_power_of_two(align),
            size + align <= isize::MAX,
            old(self).allocated() + request_size(size) <= usize::MAX,
            !some_fit(old(self).blocks(), request_size(size), align) ==> old(frames).alloc_in_bounds() && !(table_missing(
                *old(space),
                old(self).end() as int,
            ) && old(frames).free_frames() == 1),
        ensures
            final(self).ready(),
            final(space).wf(),
            final(frames).wf(),
            final(vmas).wf(),
            final(frames).total() == old(frames).total(),
            r matches Some(p) ==> aligned_to(p, align),
            accounted(*old(self)) ==> accounted(*final(self)),
            forall|out: Seq<FreeBlock>| #[trigger] books(*old(self), out) ==> books(*final(self), match r {
                Some(p) => out.push(FreeBlock { addr: p, size: request_size(size) }),
                None => out,
            }),
            some_fit(old(self).blocks(), request_size(size), align) ==> {
                &&& r is Some
                &&& carved(old(self).blocks(), request_size(size), align, r->0, final(self).blocks())
                &&& final(self).allocated() == old(self).allocated() + request_size(size)
                &&& final(self).end() == old(self).end()
                &&& *final(space) == *old(space)
                &&& *final(frames) == *old(frames)
                &&& *final(vmas) == *old(vmas)
            },
            !some_fit(old(self).blocks(), request_size(size), align) ==> {
                let g = grow_size(alloc_grow_bytes(size, align) as usize);
                let grown = can_grow(*old(self), *old(space), *old(frames), alloc_grow_bytes(size, align) as usize);
                &&& (r is Some <==> grown)
                &&& grown ==> carved(
                    inserted(old(self).blocks(), FreeBlock { addr: old(self).end() as usize, size: g as usize }),
                    request_size(size),
                    align,
                    r->0,
                    final(self).blocks(),
                ) && final(self).allocated() == old(self).allocated() + request_size(size)
                    && final(self).end() == old(self).end() + g
                    && crate::paging::vma::extended(old(vmas).slots(), HEAP_START as u32, (old(self).end() + g) as u32, final(vmas).slots())
                &&& !grown ==> final(self).blocks() == old(self).blocks() && final(self).allocated() == old(self).allocated()
                    && final(self).end() == old(self).end() && *final(vmas) == *old(vmas)
                &&& exists|fs: Seq<u32>| #[trigger] fresh_backing(*old(space), *final(space), *old(frames), *final(frames), old(self).end() as int, fs)
                    && (grown ==> fs.len() == g / 4096)
            },
    {
        let ghost h0 = *self;
        let ghost list0 = self.blocks();
        let ghost end0 = self.end();
        proof {
            lemma_walk_in_bounds(list0, end0 as int, size, align);
        }
        let first = self.alloc_inner(size, align);
        if let Some(p) = first {
            proof {
                let i = choose|i: int| #![trigger list0[i]]
                    first_fit(list0, i, request_size(size), align) && p == carve_addr(list0[i], request_size(size), align)
                        && self.blocks() == carve_list(list0, i, request_size(size), align);
                law_carve_hands_out_free_bytes(list0, i, request_size(size), align, HEAP_START as int, end0 as int);
                assert forall|out: Seq<FreeBlock>| #[trigger] books(h0, out) implies books(
                    *self,
                    out.push(FreeBlock { addr: p, size: request_size(size) }),
                ) by {
                    lemma_books_carve(h0, *self, i, request_size(size), align, out);
                }
            }
            return Some(p);
        }
        let alloc_size = if size > MIN_BLOCK_SIZE { size } else { MIN_BLOCK_SIZE };
        let needed = alloc_size + align;
        let grow_by = if needed > 65536 { needed } else { 65536 };
        let ghost hg = *self;
        if !self.grow_heap(space, frames, vmas, grow_by) {
            return None;
        }
        let ghost h1 = *self;
        let ghost list1 = self.blocks();
        let ghost end1 = self.end();
        proof {
            lemma_grown_fits(list0, FreeBlock { addr: end0 as usize, size: grow_size(grow_by) as usize }, end0 as int, alloc_size, align);
            lemma_walk_in_bounds(list1, end1 as int, size, align);
        }
        let second = self.alloc_inner(size, align);
        proof {
            let p = second->0;
            let i = choose|i: int| #![trigger list1[i]]
                first_fit(list1, i, request_size(size), align) && p == carve_addr(list1[i], request_size(size), align)
                    && self.blocks() == carve_list(list1, i, request_size(size), align);
            law_carve_hands_out_free_bytes(list1, i, request_size(size), align, HEAP_START as int, end1 as int);
            assert forall|out: Seq<FreeBlock>| #[trigger] books(h0, out) implies books(
                *self,
                out.push(FreeBlock { addr: p, size: request_size(size) }),
            ) by {
                assert(books(hg, out));
                assert(books(h1, out));
                lemma_books_carve(h1, *self, i, request_size(size), align, out);
            }
        }
        second
    }
}

/// The sizes of two lists joined add up.
proof fn lemma_total_concat(a: Seq<FreeBlock>, b: Seq<FreeBlock>)
    ensures
        total_size(a + b) == total_size(a) + total_size(b),
    decreases b.len(),
{
    if b.len() > 0 {
        assert((a + b).drop_last() =~= a + b.drop_last());
        lemma_total_concat(a, b.drop_last());
    } else {
        assert(a + b =~= a);
    }
}

/// Splitting a list anywhere keeps its total size.
proof fn lemma_total_split(list: Seq<FreeBlock>, k: int)
    requires
        0 <= k <= list.len(),
    ensures
        total_size(list) == total_size(list.take(k)) + total_size(list.skip(k)),
{
    assert(list =~= list.take(k) + list.skip(k));
    lemma_total_concat(list.take(k), list.skip(k));
}

/// One block weighs its size.
proof fn lemma_total_one(x: FreeBlock)
    ensures
        total_size(seq![x]) == x.size,
{
    let s = seq![x];
    assert(s.drop_last() =~= Seq::<FreeBlock>::empty());
    assert(total_size(Seq::<FreeBlock>::empty()) == 0);
    assert(s.last() == x);
}

/// Two blocks weigh the sum of their sizes.
proof fn lemma_total_two(x: FreeBlock, y: FreeBlock)
    ensures
        total_size(seq![x, y]) == x.size + y.size,
{
    assert(seq![x, y].drop_last() =~= seq![x]);
    lemma_total_one(x);
}

/// The blocks before the insert position end at or before `blk`, and those
/// from it on start at or after its end.
proof fn lemma_insert_sides(list: Seq<FreeBlock>, blk: FreeBlock, lo: int, hi: int)
    requires
        blocks_ok(list, lo, hi),
        disjoint_from(list, blk),
        blk.size >= MIN_BLOCK_SIZE,
    ensures
        0 <= insert_pos(list, blk.addr) <= list.len(),
        forall|i: int| 0 <= i < insert_pos(list, blk.addr) ==> #[trigger] list[i].addr + list[i].size <= blk.addr,
        forall|j: int| insert_pos(list, blk.addr) <= j < list.len() ==> blk.addr + blk.size <= #[trigger] list[j].addr,
{
    lemma_insert_pos(list, blk.addr);
    let k = insert_pos(list, blk.addr);
    assert forall|i: int| 0 <= i < k implies #[trigger] list[i].addr + list[i].size <= blk.addr by {
        assert(list[i].addr < blk.addr);
    }
    assert forall|j: int| k <= j < list.len() implies blk.addr + blk.size <= #[trigger] list[j].addr by {
        if j > k {
            assert(list[k].addr + list[k].size <= list[j].addr);
        }
    }
}

/// The shape of `inserted`: a head of untouched blocks, one block in the
/// middle, and a tail of untouched blocks.
pub open spec fn insert_head_len(list: Seq<FreeBlock>, blk: FreeBlock) -> int {
    let k = insert_pos(list, blk.addr);
    if k > 0 && list[k - 1].addr + list[k - 1].size == blk.addr { k - 1 } else { k }
}

/// Index in `list` of the first block after the middle one of `inserted`.
pub open spec fn insert_rest_start(list: Seq<FreeBlock>, blk: FreeBlock) -> int {
    let k = insert_pos(list, blk.addr);
    if k < list.len() && blk.addr + blk.size == list[k].addr { k + 1 } else { k }
}

/// The middle block of `inserted`: `blk` grown by the neighbours it touches.
pub open spec fn insert_mid(list: Seq<FreeBlock>, blk: FreeBlock) -> FreeBlock {
    let k = insert_pos(list, blk.addr);
    let merge_next = k < list.len() && blk.addr + blk.size == list[k].addr;
    let b1 = if merge_next { FreeBlock { addr: blk.addr, size: (blk.size + list[k].size) as usize } } else { blk };
    if k > 0 && list[k - 1].addr + list[k - 1].size == blk.addr {
        FreeBlock { addr: list[k - 1].addr, size: (list[k - 1].size + b1.size) as usize }
    } else {
        b1
    }
}

/// `inserted` is the head, the middle block and the tail.
proof fn lemma_inserted_shape(list: Seq<FreeBlock>, blk: FreeBlock)
    requires
        0 <= insert_pos(list, blk.addr) <= list.len(),
    ensures
        inserted(list, blk) =~= list.take(insert_head_len(list, blk)) + seq![insert_mid(list, blk)]
            + list.skip(insert_rest_start(list, blk)),
{
}

/// Putting back a block that lies in `[lo, hi)` and overlaps no free block
/// computes nothing that overflows.
proof fn lemma_inserted_in_bounds(list: Seq<FreeBlock>, blk: FreeBlock, lo: int, hi: int)
    requires
        blocks_ok(list, lo, hi),
        blk.size >= MIN_BLOCK_SIZE,
        lo <= blk.addr,
        blk.addr + blk.size <= hi,
        lo <= hi <= usize::MAX,
        disjoint_from(list, blk),
    ensures
        insert_in_bounds(list, blk),
{
    lemma_insert_sides(list, blk, lo, hi);
    let k = insert_pos(list, blk.addr);
    if k > 0 && list[k - 1].addr + list[k - 1].size == blk.addr {
        if k < list.len() && blk.addr + blk.size == list[k].addr {
            assert(list[k - 1].addr + list[k - 1].size + blk.size + list[k].size == list[k].addr + list[k].size);
        }
    }
}

/// Putting back such a block keeps the blocks in order without overlap.
proof fn lemma_inserted_blocks_ok(list: Seq<FreeBlock>, blk: FreeBlock, lo: int, hi: int)
    requires
        blocks_ok(list, lo, hi),
        blk.size >= MIN_BLOCK_SIZE,
        lo <= blk.addr,
        blk.addr + blk.size <= hi,
        lo <= hi <= usize::MAX,
        disjoint_from(list, blk),
    ensures
        blocks_ok(inserted(list, blk), lo, hi),
{
    lemma_insert_sides(list, blk, lo, hi);
    lemma_inserted_in_bounds(list, blk, lo, hi);
    lemma_inserted_shape(list, blk);
    let k = insert_pos(list, blk.addr);
    let head_len = insert_head_len(list, blk);
    let rest_start = insert_rest_start(list, blk);
    let mid = insert_mid(list, blk);
    let r = inserted(list, blk);
    assert(r.len() == head_len + 1 + (list.len() - rest_start));
    assert(mid.addr + mid.size == (if rest_start > k { list[k].addr + list[k].size } else { blk.addr + blk.size }));
    assert(mid.addr >= lo);
    assert forall|i: int| 0 <= i < r.len() implies {
        &&& (#[trigger] r[i]).size >= MIN_BLOCK_SIZE
        &&& lo <= r[i].addr
        &&& r[i].addr + r[i].size <= hi
    } by {
        if i < head_len {
            assert(r[i] == list[i]);
        } else if i == head_len {
            assert(r[i] == mid);
        } else {
            assert(r[i] == list[rest_start + (i - head_len - 1)]);
        }
    }
    assert forall|i: int, j: int| 0 <= i < j < r.len() implies (#[trigger] r[i]).addr + r[i].size <= (#[trigger] r[j]).addr by {
        if j < head_len {
            assert(r[i] == list[i] && r[j] == list[j]);
        } else if j == head_len {
            assert(r[i] == list[i]);
            if head_len < k {
                assert(list[i].addr + list[i].size <= list[k - 1].addr);
            }
        } else {
            let jj = rest_start + (j - head_len - 1);
            assert(r[j] == list[jj]);
            if i < head_len {
                assert(r[i] == list[i]);
                assert(list[i].addr + list[i].size <= list[jj].addr);
            } else if i == head_len {
                assert(r[i] == mid);
                if rest_start > k {
                    assert(list[k].addr + list[k].size <= list[jj].addr);
                }
            } else {
                let ii = rest_start + (i - head_len - 1);
                assert(r[i] == list[ii]);
            }
        }
    }
}

/// Putting back such a block adds exactly its size to the free bytes.
proof fn lemma_inserted_total(list: Seq<FreeBlock>, blk: FreeBlock)
    requires
        insert_in_bounds(list, blk),
        0 <= insert_pos(list, blk.addr) <= list.len(),
    ensures
        total_size(inserted(list, blk)) == total_size(list) + blk.size,
{
    lemma_inserted_shape(list, blk);
    let k = insert_pos(list, blk.addr);
    let head_len = insert_head_len(list, blk);
    let rest_start = insert_rest_start(list, blk);
    let mid = insert_mid(list, blk);
    let head = list.take(head_len);
    let rest = list.skip(rest_start);
    lemma_total_concat(head + seq![mid], rest);
    lemma_total_concat(head, seq![mid]);
    lemma_total_one(mid);
    lemma_total_split(list, head_len);
    let t = list.skip(head_len);
    let n = rest_start - head_len;
    lemma_total_split(t, n);
    assert(t.skip(n) =~= rest);
    if n == 2 {
        assert(t.take(2) =~= seq![list[k - 1], list[k]]);
        lemma_total_two(list[k - 1], list[k]);
    } else if n == 1 {
        assert(t.take(1) =~= seq![list[head_len]]);
        lemma_total_one(list[head_len]);
    } else {
        assert(t.take(0) =~= Seq::<FreeBlock>::empty());
    }
}

/// Putting back a block that lies in `[lo, hi)` and overlaps no free block
/// keeps the blocks in order without overlapping, computes nothing that
/// overflows, and adds exactly the block's size to the free bytes.
pub proof fn law_free_returns_block(list: Seq<FreeBlock>, blk: FreeBlock, lo: int, hi: int)
    requires
        blocks_ok(list, lo, hi),
        blk.size >= MIN_BLOCK_SIZE,
        lo <= blk.addr,
        blk.addr + blk.size <= hi,
        lo <= hi <= usize::MAX,
        disjoint_from(list, blk),
    ensures
        insert_in_bounds(list, blk),
        blocks_ok(inserted(list, blk), lo, hi),
        total_size(inserted(list, blk)) == total_size(list) + blk.size,
{
    lemma_inserted_in_bounds(list, blk, lo, hi);
    lemma_inserted_blocks_ok(list, blk, lo, hi);
    lemma_insert_pos(list, blk.addr);
    lemma_inserted_total(list, blk);
}

/// No two free blocks touch: a gap lies between each block and the next.
pub open spec fn coalesced(list: Seq<FreeBlock>) -> bool {
    forall|i: int, j: int| 0 <= i < j < list.len() ==> (#[trigger] list[i]).addr + list[i].size < (#[trigger] list[j]).addr
}

/// Putting back a block that lies in `[lo, hi)` and overlaps no free block
/// keeps a fully merged free list fully merged: the block is joined with
/// each neighbour it touches.
pub proof fn law_free_keeps_coalesced(list: Seq<FreeBlock>, blk: FreeBlock, lo: int, hi: int)
    requires
        blocks_ok(list, lo, hi),
        coalesced(list),
        blk.size >= MIN_BLOCK_SIZE,
        lo <= blk.addr,
        blk.addr + blk.size <= hi,
        lo <= hi <= usize::MAX,
        disjoint_from(list, blk),
    ensures
        coalesced(inserted(list, blk)),
{
    lemma_insert_sides(list, blk, lo, hi);
    lemma_inserted_in_bounds(list, blk, lo, hi);
    lemma_inserted_shape(list, blk);
    let k = insert_pos(list, blk.addr);
    let head_len = insert_head_len(list, blk);
    let rest_start = insert_rest_start(list, blk);
    let mid = insert_mid(list, blk);
    let r = inserted(list, blk);
    assert(r.len() == head_len + 1 + (list.len() - rest_start));
    assert(mid.addr + mid.size == (if rest_start > k { list[k].addr + list[k].size } else { blk.addr + blk.size }));
    assert(mid.addr == (if head_len < k { list[k - 1].addr } else { blk.addr }));
    assert forall|i: int, j: int| 0 <= i < j < r.len() implies (#[trigger] r[i]).addr + r[i].size < (#[trigger] r[j]).addr by {
        if j < head_len {
            assert(r[i] == list[i] && r[j] == list[j]);
        } else if j == head_len {
            assert(r[i] == list[i]);
            assert(r[j] == mid);
            if head_len < k {
                assert(list[i].addr + list[i].size < list[k - 1].addr);
            } else {
                assert(list[k - 1].addr + list[k - 1].size <= blk.addr);
                if i < k - 1 {
                    assert(list[i].addr + list[i].size < list[k - 1].addr);
                }
            }
        } else {
            let jj = rest_start + (j - head_len - 1);
            assert(r[j] == list[jj]);
            if i < head_len {
                assert(r[i] == list[i]);
                assert(list[i].addr + list[i].size < list[jj].addr);
            } else if i == head_len {
                assert(r[i] == mid);
                if rest_start > k {
                    assert(list[k].addr + list[k].size < list[jj].addr);
                } else {
                    assert(blk.addr + blk.size <= list[k].addr);
                    if jj > k {
                        assert(list[k].addr + list[k].size < list[jj].addr);
                    }
                }
            } else {
                let ii = rest_start + (i - head_len - 1);
                assert(r[i] == list[ii]);
            }
        }
    }
}

/// The bytes of a block.
pub open spec fn block_bytes(b: FreeBlock) -> Set<int> {
    Set::new(|x: int| b.addr <= x < b.addr + b.size)
}

/// The bytes of the free blocks.
pub open spec fn free_bytes(list: Seq<FreeBlock>) -> Set<int> {
    Set::new(|x: int| exists|i: int| 0 <= i < list.len() && (#[trigger] list[i]).addr <= x < list[i].addr + list[i].size)
}

/// Putting back a block that lies in `[lo, hi)` and overlaps no free block
/// makes the free bytes those there were and the block's own.
pub proof fn law_free_adds_its_bytes(list: Seq<FreeBlock>, blk: FreeBlock, lo: int, hi: int)
    requires
        blocks_ok(list, lo, hi),
        blk.size >= MIN_BLOCK_SIZE,
        lo <= blk.addr,
        blk.addr + blk.size <= hi,
        lo <= hi <= usize::MAX,
        disjoint_from(list, blk),
    ensures
        free_bytes(inserted(list, blk)) == free_bytes(list).union(block_bytes(blk)),
{
    lemma_insert_sides(list, blk, lo, hi);
    lemma_inserted_in_bounds(list, blk, lo, hi);
    lemma_inserted_shape(list, blk);
    let k = insert_pos(list, blk.addr);
    let head_len = insert_head_len(list, blk);
    let rest_start = insert_rest_start(list, blk);
    let mid = insert_mid(list, blk);
    let r = inserted(list, blk);
    assert(r.len() == head_len + 1 + (list.len() - rest_start));
    assert(mid.addr + mid.size == (if rest_start > k { list[k].addr + list[k].size } else { blk.addr + blk.size }));
    assert(mid.addr == (if head_len < k { list[k - 1].addr } else { blk.addr }));
    assert(r[head_len] == mid);
    assert forall|x: int| free_bytes(r).contains(x) implies free_bytes(list).union(block_bytes(blk)).contains(x) by {
        let j = choose|j: int| 0 <= j < r.len() && (#[trigger] r[j]).addr <= x < r[j].addr + r[j].size;
        if j < head_len {
            assert(r[j] == list[j]);
            assert(free_bytes(list).contains(x));
        } else if j == head_len {
            if head_len < k && x < blk.addr {
                assert(list[k - 1].addr <= x < list[k - 1].addr + list[k - 1].size);
                assert(free_bytes(list).contains(x));
            } else if rest_start > k && x >= blk.addr + blk.size {
                assert(list[k].addr <= x < list[k].addr + list[k].size);
                assert(free_bytes(list).contains(x));
            } else {
                assert(block_bytes(blk).contains(x));
            }
        } else {
            let jj = rest_start + (j - head_len - 1);
            assert(r[j] == list[jj]);
            assert(free_bytes(list).contains(x));
        }
    }
    assert forall|x: int| free_bytes(list).union(block_bytes(blk)).contains(x) implies free_bytes(r).contains(x) by {
        if block_bytes(blk).contains(x) {
            assert(r[head_len].addr <= x < r[head_len].addr + r[head_len].size);
        } else {
            let i = choose|i: int| 0 <= i < list.len() && (#[trigger] list[i]).addr <= x < list[i].addr + list[i].size;
            if i < head_len {
                assert(r[i] == list[i]);
                assert(r[i].addr <= x < r[i].addr + r[i].size);
            } else if i < rest_start {
                assert(i == k - 1 || i == k);
                assert(r[head_len].addr <= x < r[head_len].addr + r[head_len].size);
            } else {
                let j = head_len + 1 + (i - rest_start);
                assert(r[j] == list[i]);
                assert(r[j].addr <= x < r[j].addr + r[j].size);
            }
        }
    }
    assert(free_bytes(r) =~= free_bytes(list).union(block_bytes(blk)));
}

/// A prefix of the blocks weighs no more than all of them.
proof fn lemma_total_size_prefix(list: Seq<FreeBlock>, n: int)
    requires
        0 <= n <= list.len(),
    ensures
        total_size(list.take(n)) <= total_size(list),
    decreases list.len(),
{
    if n < list.len() {
        assert(list.drop_last().take(n) =~= list.take(n));
        lemma_total_size_prefix(list.drop_last(), n);
    } else {
        assert(list.take(n) =~= list);
    }
}

} // verus!
