use lib::heap::{align_up, FreeBlock, KernelHeap, HEAP_INIT_SIZE, HEAP_MAX_SIZE, HEAP_START};
use lib::paging::frame_allocator::{FrameAllocator, MAX_MEMORY};
use lib::paging::mapper::AddressSpace;
use lib::paging::vma::{VmaFlags, VmaKind, VmaTable, VMA_DEMAND, VMA_READ, VMA_WRITE};

struct Machine {
    space: AddressSpace,
    frames: FrameAllocator,
    vmas: VmaTable,
    heap: KernelHeap,
}

fn boot_with_kernel_end(kernel_end: usize) -> Machine {
    let mut frames = FrameAllocator::new();
    frames.init(MAX_MEMORY, kernel_end);
    let mut space = AddressSpace::new();
    let mut vmas = VmaTable::new();
    vmas.register(
        HEAP_START as u32,
        (HEAP_START + HEAP_INIT_SIZE) as u32,
        VmaKind::Heap,
        VmaFlags::new(VMA_READ | VMA_WRITE | VMA_DEMAND),
    );
    let mut heap = KernelHeap::new();
    heap.init(&mut space, &mut frames);
    Machine { space, frames, vmas, heap }
}

fn boot() -> Machine {
    boot_with_kernel_end(0x0020_0000)
}

fn blk(addr: usize, size: usize) -> FreeBlock {
    FreeBlock { addr, size }
}

impl Machine {
    fn request(&mut self, size: usize, align: usize) -> Option<usize> {
        self.heap.allocate(&mut self.space, &mut self.frames, &mut self.vmas, size, align)
    }
}

#[test]
fn align_up_rounds_to_the_alignment() {
    assert_eq!(align_up(0x1001, 0x1000), 0x2000);
    assert_eq!(align_up(0x1000, 0x1000), 0x1000);
    assert_eq!(align_up(5, 1), 5);
    assert_eq!(align_up(9, 8), 16);
}

#[test]
fn new_heap_is_empty() {
    let h = KernelHeap::new();
    assert_eq!(h.used(), 0);
    assert_eq!(h.total(), 0);
    assert_eq!(h.free(), 0);
    assert!(h.free_blocks().is_empty());
}

#[test]
fn init_maps_the_first_pages_and_seeds_one_block() {
    let m = boot();
    assert_eq!(m.heap.free_blocks(), &vec![blk(HEAP_START, HEAP_INIT_SIZE)]);
    assert_eq!(m.heap.used(), 0);
    assert_eq!(m.heap.total(), HEAP_INIT_SIZE);
    assert_eq!(m.heap.free(), HEAP_INIT_SIZE);
    // First page frame, then the heap's page table, then the other pages.
    assert_eq!(m.space.get_physical_address(0x0400_0000), Some(0x0020_0000));
    assert_eq!(m.space.get_physical_address(0x0400_1004), Some(0x0020_2004));
    assert_eq!(m.space.get_physical_address(0x0400_F000), Some(0x0021_0000));
    assert_eq!(m.space.get_physical_address(0x0401_0000), None);
    // Present and writable, supervisor only.
    assert_eq!(m.space.get_page_table(16).unwrap().get_entry(0), 0x0020_0003);
    assert_eq!(m.space.get_page_table(16).unwrap().get_entry(15), 0x0021_0003);
    assert_eq!(m.frames.used_count(), 512 + 17);
}

#[test]
fn allocate_carves_from_the_first_block() {
    let mut m = boot();
    assert_eq!(m.request(16, 8), Some(HEAP_START));
    assert_eq!(m.heap.free_blocks(), &vec![blk(HEAP_START + 16, HEAP_INIT_SIZE - 16)]);
    assert_eq!(m.heap.used(), 16);
    assert_eq!(m.request(32, 8), Some(HEAP_START + 16));
    assert_eq!(m.heap.used(), 48);
    assert_eq!(m.heap.free(), HEAP_INIT_SIZE - 48);
}

#[test]
fn tiny_requests_take_a_block_header() {
    let mut m = boot();
    assert_eq!(m.request(1, 1), Some(HEAP_START));
    assert_eq!(m.heap.used(), 8);
    assert_eq!(m.heap.free_blocks()[0], blk(HEAP_START + 8, HEAP_INIT_SIZE - 8));
}

#[test]
fn large_padding_becomes_a_block_of_its_own() {
    let mut m = boot();
    assert_eq!(m.request(8, 1), Some(HEAP_START));
    assert_eq!(m.request(16, 64), Some(HEAP_START + 64));
    assert_eq!(
        m.heap.free_blocks(),
        &vec![blk(HEAP_START + 8, 56), blk(HEAP_START + 80, HEAP_INIT_SIZE - 80)]
    );
}

#[test]
fn small_padding_is_dropped_and_the_result_aligned() {
    let mut m = boot();
    assert_eq!(m.request(12, 4), Some(HEAP_START));
    // Padding of 4 bytes is too small to be a block: it is left out.
    assert_eq!(m.request(8, 8), Some(HEAP_START + 16));
    assert_eq!(m.heap.free_blocks(), &vec![blk(HEAP_START + 24, HEAP_INIT_SIZE - 24)]);
    assert_eq!(m.heap.used(), 20);
}

#[test]
fn a_small_remainder_goes_with_the_allocation() {
    let mut m = boot();
    assert_eq!(m.request(HEAP_INIT_SIZE - 6, 8), Some(HEAP_START));
    assert!(m.heap.free_blocks().is_empty());
    assert_eq!(m.heap.free(), 0);
    assert_eq!(m.heap.used(), HEAP_INIT_SIZE - 6);
}

#[test]
fn dealloc_merges_with_both_neighbours() {
    let mut m = boot();
    let a = m.request(16, 8).unwrap();
    let b = m.request(32, 8).unwrap();
    m.heap.dealloc(a, 16);
    assert_eq!(
        m.heap.free_blocks(),
        &vec![blk(HEAP_START, 16), blk(HEAP_START + 48, HEAP_INIT_SIZE - 48)]
    );
    assert_eq!(m.heap.used(), 32);
    m.heap.dealloc(b, 32);
    assert_eq!(m.heap.free_blocks(), &vec![blk(HEAP_START, HEAP_INIT_SIZE)]);
    assert_eq!(m.heap.used(), 0);
}

#[test]
fn alloc_then_free_gives_the_bytes_back() {
    let mut m = boot();
    let before = m.heap.free();
    let p = m.request(100, 4).unwrap();
    m.heap.dealloc(p, 100);
    assert_eq!(m.heap.free(), before);
    assert_eq!(m.heap.used(), 0);
}

#[test]
fn used_count_does_not_go_below_zero() {
    let mut m = boot();
    let p = m.request(8, 8).unwrap();
    m.heap.dealloc(p, 64);
    assert_eq!(m.heap.used(), 0);
}

#[test]
fn free_list_insert_keeps_address_order_and_merges() {
    let mut h = KernelHeap::new();
    h.free_list_insert(blk(0x3000, 0x100));
    h.free_list_insert(blk(0x1000, 0x100));
    h.free_list_insert(blk(0x2000, 0x100));
    assert_eq!(h.free_blocks(), &vec![blk(0x1000, 0x100), blk(0x2000, 0x100), blk(0x3000, 0x100)]);
    h.free_list_insert(blk(0x1100, 0xF00));
    assert_eq!(h.free_blocks(), &vec![blk(0x1000, 0x1100), blk(0x3000, 0x100)]);
    h.free_list_insert(blk(0x2100, 0xF00));
    assert_eq!(h.free_blocks(), &vec![blk(0x1000, 0x2100)]);
    assert_eq!(h.free(), 0x2100);
}

#[test]
fn alloc_inner_fails_on_an_empty_list() {
    let mut h = KernelHeap::new();
    assert_eq!(h.alloc_inner(8, 8), None);
    assert_eq!(h.used(), 0);
}

#[test]
fn allocate_grows_the_heap_when_nothing_fits() {
    let mut m = boot();
    assert_eq!(m.request(100_000, 8), Some(HEAP_START));
    // 100_000 + 8 bytes rounded up to 25 pages, merged with the first block.
    assert_eq!(m.heap.total(), HEAP_INIT_SIZE + 25 * 4096);
    assert_eq!(m.heap.free_blocks(), &vec![blk(HEAP_START + 100_000, HEAP_INIT_SIZE + 25 * 4096 - 100_000)]);
    assert!(m.space.get_physical_address(0x0401_0000).is_some());
    assert!(m.space.get_physical_address(0x0402_8000).is_some());
    assert_eq!(m.space.get_physical_address(0x0402_9000), None);
    assert_eq!(m.vmas.find(0x0402_8FFF).unwrap().end, 0x0402_9000);
}

#[test]
fn small_requests_grow_the_heap_by_64_kb() {
    let mut m = boot();
    assert_eq!(m.request(HEAP_INIT_SIZE, 8), Some(HEAP_START));
    assert_eq!(m.request(16, 8), Some(HEAP_START + HEAP_INIT_SIZE));
    assert_eq!(m.heap.total(), 2 * HEAP_INIT_SIZE);
}

#[test]
fn grow_heap_adds_whole_pages() {
    let mut m = boot();
    assert!(m.heap.grow_heap(&mut m.space, &mut m.frames, &mut m.vmas, 1));
    assert_eq!(m.heap.total(), HEAP_INIT_SIZE + 4096);
    assert_eq!(m.heap.free_blocks(), &vec![blk(HEAP_START, HEAP_INIT_SIZE + 4096)]);
    assert_eq!(m.vmas.find(HEAP_START as u32).unwrap().end, (HEAP_START + HEAP_INIT_SIZE + 4096) as u32);
}

#[test]
fn the_heap_does_not_grow_past_its_maximum() {
    let mut m = boot();
    let used = m.frames.used_count();
    assert_eq!(m.request(HEAP_MAX_SIZE, 8), None);
    assert_eq!(m.heap.total(), HEAP_INIT_SIZE);
    assert_eq!(m.heap.free_blocks(), &vec![blk(HEAP_START, HEAP_INIT_SIZE)]);
    assert_eq!(m.frames.used_count(), used);
}

#[test]
fn allocate_fails_when_frames_run_out() {
    // Leave exactly the 17 frames the initial heap takes.
    let mut m = boot_with_kernel_end(MAX_MEMORY - 17 * 4096);
    assert_eq!(m.frames.free_count(), 0);
    assert!(!m.heap.grow_heap(&mut m.space, &mut m.frames, &mut m.vmas, 4096));
    assert_eq!(m.request(HEAP_INIT_SIZE + 1, 8), None);
    assert_eq!(m.heap.total(), HEAP_INIT_SIZE);
    assert_eq!(m.heap.used(), 0);
}

fn check_books(m: &Machine) {
    let blocks = m.heap.free_blocks();
    for w in blocks.windows(2) {
        // In order, with a gap between neighbours: fully merged.
        assert!(w[0].addr + w[0].size < w[1].addr);
    }
    assert!(m.heap.used() + m.heap.free() <= m.heap.total());
    assert_eq!(m.heap.total() % 4096, 0);
    assert!(HEAP_INIT_SIZE <= m.heap.total() && m.heap.total() <= HEAP_MAX_SIZE);
}

#[test]
fn alloc_and_free_in_any_order_keep_the_books() {
    let mut m = boot();
    let mut live: Vec<(usize, usize)> = Vec::new();
    for (i, size) in [24usize, 100, 8, 4000, 60, 13, 70000, 256].iter().enumerate() {
        let align = if i % 2 == 0 { 8 } else { 64 };
        let p = m.request(*size, align).unwrap();
        assert_eq!(p % align, 0);
        live.push((p, *size));
        check_books(&m);
    }
    for k in [3usize, 0, 6, 1, 7, 2, 5, 4] {
        let (p, size) = live[k];
        m.heap.dealloc(p, size);
        check_books(&m);
    }
    assert_eq!(m.heap.used(), 0);
}

#[test]
fn freeing_adds_exactly_the_block_bytes() {
    let mut m = boot();
    let a = m.request(32, 8).unwrap();
    let b = m.request(32, 8).unwrap();
    let _c = m.request(32, 8).unwrap();
    let free_before = m.heap.free();
    m.heap.dealloc(b, 32);
    assert_eq!(m.heap.free(), free_before + 32);
    m.heap.dealloc(a, 32);
    assert_eq!(m.heap.free(), free_before + 64);
    assert_eq!(m.heap.free_blocks()[0], blk(HEAP_START, 64));
}

#[test]
fn fits_without_growing_says_when_a_block_fits() {
    let mut m = boot();
    assert!(m.heap.fits_without_growing(100, 8));
    assert!(!m.heap.fits_without_growing(HEAP_INIT_SIZE + 1, 8));
    m.request(HEAP_INIT_SIZE - 64, 8).unwrap();
    assert!(m.heap.fits_without_growing(64, 8));
    assert!(!m.heap.fits_without_growing(65, 8));
}
