use lib::gdt::gdt::{gdt_pointer, kernel_gdt, GDT_ADDR};
use lib::interrupts::idt::{idt_pointer, IdtEntry};
use lib::interrupts::pic::init_pic_sequence;
use lib::paging::frame_allocator::{FrameAllocator, MAX_FRAMES};
use lib::paging::mapper::AddressSpace;
use lib::paging::vma::{VmaKind, VmaTable};
use lib::paging::{init, setup_guard_pages, BootLayout};
use lib::shell::commands::{cmd_paging, cmd_paging_check, cmd_paging_heap_test, TEST_MAGIC, TEST_VIRT};
use lib::heap::KernelHeap;
use lib::vga::text_mod::out::Screen;

fn row(s: &Screen, y: usize) -> String {
    let cells = s.cells();
    let text: String = (0..80).map(|x| (cells[y * 80 + x] & 0xFF) as u8 as char).collect();
    text.trim_end_matches(|c| c == '\0' || c == ' ').to_string()
}

fn layout() -> BootLayout {
    BootLayout {
        kernel_end: 0x0020_0000,
        kernel_stack_bottom: 0x0013_0000,
        kernel_stack_top: 0x0013_4000,
        user_stack_bottom: 0x0013_5000,
        user_stack_top: 0x0013_9000,
        kernel_guard_page: 0x0012_F000,
        user_guard_page: 0x0013_4000,
    }
}

fn tables() -> [u32; 16] {
    let mut t = [0u32; 16];
    for (i, a) in t.iter_mut().enumerate() {
        *a = 0x0010_0000 + (i as u32) * 0x1000;
    }
    t
}

#[test]
fn gdt_has_flat_kernel_and_user_segments() {
    let g = kernel_gdt();
    assert_eq!(g[0].access, 0);
    assert_eq!(g[0].limit_low, 0);
    let access: Vec<u8> = g.iter().map(|e| e.access).collect();
    assert_eq!(access, vec![0, 0x9A, 0x92, 0xFA, 0xF2]);
    assert!(g[1..].iter().all(|e| e.limit_low == 0xFFFF && e.granularity == 0xCF && e.base_low == 0));
    let p = gdt_pointer();
    assert_eq!((p.limit, p.base), (39, GDT_ADDR));
}

#[test]
fn idt_gate_splits_the_handler_address() {
    let e = IdtEntry::interrupt_gate(0x0012_3456);
    assert_eq!((e.offset_low, e.offset_high, e.selector, e.zero, e.flags), (0x3456, 0x0012, 0x08, 0, 0x8E));
    let m = IdtEntry::missing();
    assert_eq!((m.offset_low, m.flags), (0, 0));
    let p = idt_pointer(0x5000);
    assert_eq!((p.limit, p.base), (2047, 0x5000));
}

#[test]
fn pic_setup_unmasks_only_the_keyboard() {
    let seq = init_pic_sequence();
    assert_eq!(seq.len(), 12);
    assert_eq!(seq[0], (0x20, 0x11));
    assert_eq!(seq[1], (0x21, 0x20));
    assert_eq!(seq[5], (0xA1, 0x28));
    assert_eq!(seq[10], (0x21, 0xFD));
    assert_eq!(seq[11], (0xA1, 0xFF));
}

#[test]
fn paging_init_sets_up_memory() {
    let mut space = AddressSpace::new();
    let mut frames = FrameAllocator::new();
    let mut vmas = VmaTable::new();
    init(&mut space, &mut frames, &mut vmas, &layout(), tables());
    assert_eq!(space.get_physical_address(0x000B_8000), Some(0x000B_8000));
    assert_eq!(space.get_physical_address(0x0012_F004), None);
    assert_eq!(space.get_physical_address(0x0013_4000), None);
    assert_eq!(space.get_physical_address(0x0013_5000), Some(0x0013_5000));
    assert_eq!(frames.total_count(), MAX_FRAMES);
    assert_eq!(frames.used_count(), 512);
    assert_eq!(vmas.count(), 8);
    assert_eq!(vmas.find(0x0400_0000).unwrap().kind, VmaKind::Heap);
}

#[test]
fn guard_pages_are_unmapped() {
    let mut space = AddressSpace::new();
    space.identity_map(tables());
    let mut frames = FrameAllocator::new();
    setup_guard_pages(&mut space, &mut frames, &layout());
    assert_eq!(space.get_physical_address(0x0012_F000), None);
    assert_eq!(space.get_physical_address(0x0012_E000), Some(0x0012_E000));
}

#[test]
fn paging_command_reports_and_runs_the_live_test() {
    let mut space = AddressSpace::new();
    let mut frames = FrameAllocator::new();
    let mut vmas = VmaTable::new();
    init(&mut space, &mut frames, &mut vmas, &layout(), tables());
    let mut heap = KernelHeap::new();
    heap.init(&mut space, &mut frames);
    let mut s = Screen::new();
    let used_before = frames.used_count();
    let frame = cmd_paging(&mut s, &mut frames, &mut space, &heap).unwrap();
    assert_eq!(row(&s, 0), "=== Frame Allocator ===");
    assert_eq!(row(&s, 1), "  Total : 16384 frames (65536 KB)");
    assert_eq!(row(&s, 2), "  Used  : 529 frames (2116 KB)");
    assert_eq!(row(&s, 3), "  Free  : 15855 frames (63420 KB)");
    assert_eq!(row(&s, 5), "=== Page Directory ===");
    assert_eq!(row(&s, 6), "  Present entries: 17 / 1024");
    assert_eq!(row(&s, 7), "  [0-15]  Identity map  0x00000000-0x03FFFFFF");
    assert_eq!(row(&s, 8), "  [16]     Mapped        0x04000000-0x043FFFFF");
    assert_eq!(row(&s, 10), "=== Kernel Heap ===");
    assert_eq!(row(&s, 11), "  Region: 0x04000000 - 0x0400FFFF (64 KB)");
    assert_eq!(row(&s, 12), "  Used  : 0 bytes");
    assert_eq!(row(&s, 13), "  Free  : 65536 bytes");
    assert_eq!(row(&s, 15), "=== Live Paging Test ===");
    assert_eq!(row(&s, 16), "  Allocating frame... OK (0x00211000)");
    assert_eq!(row(&s, 17), "  Mapping 0x08000000 -> 0x00211000 ... OK");
    assert_eq!(row(&s, 18), "  Writing 0xDEADBEEF...");
    assert_eq!(frame, 0x0021_1000);
    assert_eq!(space.get_physical_address(TEST_VIRT + 4), Some(0x0021_1004));
    cmd_paging_check(&mut s, &mut frames, &mut space, frame, TEST_MAGIC);
    assert_eq!(row(&s, 18), "  Writing 0xDEADBEEF... OK");
    assert_eq!(row(&s, 19), "  Reading back... 0xDEADBEEF OK!");
    assert_eq!(row(&s, 20), "  Translate 0x08000000 -> 0x00211000 OK");
    assert_eq!(row(&s, 21), "  Unmapping... OK");
    assert_eq!(row(&s, 22), "  Freeing frame... OK");
    assert_eq!(space.get_physical_address(TEST_VIRT), None);
    assert!(!frames.is_used(frame));
    // The test gives back its frame and the page table it made.
    assert_eq!(frames.used_count(), used_before);
    assert!(!space.directory().is_present(32));
}

#[test]
fn paging_check_reports_a_mismatch() {
    let mut space = AddressSpace::new();
    let mut frames = FrameAllocator::new();
    frames.init(0x0040_0000, 0x0020_0000);
    let mut s = Screen::new();
    cmd_paging_check(&mut s, &mut frames, &mut space, 0x0030_0000, 0x1234);
    assert_eq!(row(&s, 0), "OK");
    assert_eq!(row(&s, 1), "  Reading back... 0x00001234 MISMATCH!");
    assert_eq!(row(&s, 2), "  Translate 0x08000000 -> NONE (bug!)");
}

#[test]
fn paging_heap_test_report() {
    let mut s = Screen::new();
    cmd_paging_heap_test(&mut s, 0, 42, 3, 24);
    assert_eq!(row(&s, 1), "=== Heap Alloc Test ===");
    assert_eq!(row(&s, 2), "  Heap used before: 0 bytes");
    assert_eq!(row(&s, 3), "  Box::new(42u32)... OK (value = 42)");
    assert_eq!(row(&s, 4), "  Vec push 1,2,3... OK (len = 3)");
    assert_eq!(row(&s, 5), "  Heap used after : 24 bytes");
    assert_eq!(row(&s, 7), "All paging tests passed!");
}

#[test]
fn descriptors_in_cpu_byte_order() {
    let g = kernel_gdt();
    assert_eq!(g[1].to_bytes(), [0xFF, 0xFF, 0, 0, 0, 0x9A, 0xCF, 0]);
    assert_eq!(gdt_pointer().to_bytes(), [39, 0, 0x00, 0x08, 0, 0]);
    let e = IdtEntry::interrupt_gate(0x1234_5678);
    assert_eq!(e.to_bytes(), [0x78, 0x56, 0x08, 0x00, 0, 0x8E, 0x34, 0x12]);
    assert_eq!(idt_pointer(0xAABB_CCDD).to_bytes(), [0xFF, 0x07, 0xDD, 0xCC, 0xBB, 0xAA]);
}
