use lib::interrupts::exceptions::init::{exception_page_fault, halt_notice, report_exception, CpuException, FaultOutcome};
use lib::paging::frame_allocator::{FrameAllocator, MAX_MEMORY};
use lib::paging::mapper::AddressSpace;
use lib::paging::vma::{VmaFlags, VmaKind, VmaTable, VMA_DEMAND, VMA_NONE, VMA_READ, VMA_USER, VMA_WRITE};
use lib::vga::text_mod::out::Screen;

fn row(s: &Screen, y: usize) -> String {
    let cells = s.cells();
    let text: String = (0..80).map(|x| (cells[y * 80 + x] & 0xFF) as u8 as char).collect();
    text.trim_end_matches(|c| c == '\0' || c == ' ').to_string()
}

fn machine() -> (VmaTable, AddressSpace, FrameAllocator) {
    let mut frames = FrameAllocator::new();
    frames.init(MAX_MEMORY, 0x0020_0000);
    let mut vmas = VmaTable::new();
    vmas.register(0x0012_F000, 0x0013_0000, VmaKind::Guard, VmaFlags::new(VMA_NONE));
    vmas.register(0x0400_0000, 0x0401_0000, VmaKind::Heap, VmaFlags::new(VMA_READ | VMA_WRITE | VMA_DEMAND));
    vmas.register(0x0500_0000, 0x0500_1000, VmaKind::UserStack, VmaFlags::new(VMA_READ | VMA_WRITE | VMA_USER));
    (vmas, AddressSpace::new(), frames)
}

#[test]
fn division_error_reports_and_halts() {
    let mut s = Screen::new();
    assert!(report_exception(&mut s, CpuException::DivisionError));
    assert_eq!(row(&s, 1), "[EXCEPTION] Division Error (0)");
    assert_eq!(row(&s, 2), "The CPU attempted to divide by zero or the divisor was too small.");
    assert_eq!(row(&s, 4), "System halted.");
}

#[test]
fn breakpoint_and_debug_do_not_halt() {
    let mut s = Screen::new();
    assert!(!report_exception(&mut s, CpuException::Breakpoint));
    assert!(!report_exception(&mut s, CpuException::Debug));
    assert_eq!(row(&s, 1), "[EXCEPTION] Breakpoint (3)");
    assert_eq!(row(&s, 2), "INT3 breakpoint triggered.");
    assert_eq!(row(&s, 4), "[EXCEPTION] Debug (1)");
}

#[test]
fn general_protection_fault_lists_its_causes() {
    let mut s = Screen::new();
    assert!(report_exception(&mut s, CpuException::GeneralProtectionFault));
    assert_eq!(row(&s, 1), "[EXCEPTION] General Protection Fault (13)");
    assert_eq!(row(&s, 3), "  - Segment limit exceeded");
    assert_eq!(row(&s, 5), "  - Invalid segment selector");
    assert_eq!(row(&s, 7), "System halted.");
}

#[test]
fn double_fault_says_it_is_fatal() {
    let mut s = Screen::new();
    assert!(report_exception(&mut s, CpuException::DoubleFault));
    assert_eq!(row(&s, 3), "This is a fatal error. System halted.");
}

#[test]
fn halt_notice_text() {
    let mut s = Screen::new();
    halt_notice(&mut s);
    assert_eq!(row(&s, 1), "System halted.");
}

#[test]
fn guard_page_fault_is_a_stack_overflow() {
    let (vmas, mut space, mut frames) = machine();
    let mut s = Screen::new();
    let r = exception_page_fault(&mut s, &vmas, &mut space, &mut frames, 0x0012_FFFC, 0x2);
    assert_eq!(r, FaultOutcome::StackOverflow);
    assert_eq!(row(&s, 1), "[STACK OVERFLOW] at 0x0012FFFC");
    assert_eq!(row(&s, 2), "  The stack grew past its guard page!");
    assert_eq!(row(&s, 3), "  Guard region: 0x0012F000 - 0x00130000");
    assert_eq!(row(&s, 5), "System halted.");
}

#[test]
fn demand_fault_maps_a_fresh_frame() {
    let (vmas, mut space, mut frames) = machine();
    let mut s = Screen::new();
    let r = exception_page_fault(&mut s, &vmas, &mut space, &mut frames, 0x0400_5123, 0x2);
    assert_eq!(r, FaultOutcome::Resumed(0x0400_5000));
    assert_eq!(space.get_physical_address(0x0400_5123), Some(0x0020_0123));
    assert!(frames.is_used(0x0020_0000));
    // Writable, supervisor only.
    assert_eq!(space.get_page_table(16).unwrap().get_entry(5), 0x0020_0003);
    assert_eq!(row(&s, 0), "");
}

#[test]
fn protection_fault_in_a_demand_region_is_fatal() {
    let (vmas, mut space, mut frames) = machine();
    let mut s = Screen::new();
    let r = exception_page_fault(&mut s, &vmas, &mut space, &mut frames, 0x0400_5123, 0x3);
    assert_eq!(r, FaultOutcome::Fatal);
    assert_eq!(row(&s, 9), "  VMA region: Heap [0x04000000-0x04010000]");
    assert_eq!(row(&s, 11), "  => Kernel WRITE to a PRESENT page at 0x04005123");
}

#[test]
fn demand_fault_without_frames_halts() {
    let (vmas, mut space, _) = machine();
    let mut frames = FrameAllocator::new();
    frames.init(0x1000, 0x1000);
    let mut s = Screen::new();
    let r = exception_page_fault(&mut s, &vmas, &mut space, &mut frames, 0x0400_0000, 0);
    assert_eq!(r, FaultOutcome::OutOfFrames);
    assert_eq!(row(&s, 1), "[PAGE FAULT] Demand paging FAILED (out of frames) at 0x04000000");
    assert_eq!(row(&s, 3), "System halted.");
    assert_eq!(space.get_physical_address(0x0400_0000), None);
}

#[test]
fn unknown_address_gets_the_full_diagnostic() {
    let (vmas, mut space, mut frames) = machine();
    let mut s = Screen::new();
    let r = exception_page_fault(&mut s, &vmas, &mut space, &mut frames, 0xDEAD_0000, 0x6);
    assert_eq!(r, FaultOutcome::Fatal);
    assert_eq!(row(&s, 1), "[PAGE FAULT] at 0xDEAD0000");
    assert_eq!(row(&s, 2), "  Error code: 0x00000006");
    assert_eq!(row(&s, 3), "  P (present) : 0 - page not present (not mapped)");
    assert_eq!(row(&s, 4), "  W (write)   : 1 - caused by a WRITE");
    assert_eq!(row(&s, 5), "  U (user)    : 1 - user mode");
    assert_eq!(row(&s, 6), "  R (reserved): 0 - no reserved-bit violation");
    assert_eq!(row(&s, 7), "  I (fetch)   : 0 - data access");
    assert_eq!(row(&s, 9), "  VMA region: NONE (address not in any known region)");
    assert_eq!(row(&s, 11), "  => User WRITE to a NON-PRESENT page at 0xDEAD0000");
    assert_eq!(row(&s, 13), "System halted.");
}

#[test]
fn fetch_fault_summary() {
    let (vmas, mut space, mut frames) = machine();
    let mut s = Screen::new();
    exception_page_fault(&mut s, &vmas, &mut space, &mut frames, 0x0500_0000, 0x19);
    assert_eq!(row(&s, 6), "  R (reserved): 1 - reserved bit set in PTE!");
    assert_eq!(row(&s, 7), "  I (fetch)   : 1 - instruction fetch");
    assert_eq!(row(&s, 9), "  VMA region: UserStack [0x05000000-0x05001000]");
    assert_eq!(row(&s, 11), "  => Kernel FETCH to a PRESENT page at 0x05000000");
}

#[test]
fn guard_page_inside_the_identity_region_is_still_a_stack_overflow() {
    let mut frames = FrameAllocator::new();
    frames.init(MAX_MEMORY, 0x0020_0000);
    let mut vmas = VmaTable::new();
    vmas.register(0, 0x0400_0000, VmaKind::Identity, VmaFlags::new(VMA_READ | VMA_WRITE | VMA_USER));
    vmas.register(0x0012_F000, 0x0013_0000, VmaKind::Guard, VmaFlags::new(VMA_NONE));
    let mut space = AddressSpace::new();
    let mut s = Screen::new();
    let r = exception_page_fault(&mut s, &vmas, &mut space, &mut frames, 0x0012_F010, 0x2);
    assert_eq!(r, FaultOutcome::StackOverflow);
    assert_eq!(row(&s, 1), "[STACK OVERFLOW] at 0x0012F010");
    assert_eq!(row(&s, 3), "  Guard region: 0x0012F000 - 0x00130000");
    // Next to the guard page the identity region answers.
    let mut s2 = Screen::new();
    let r2 = exception_page_fault(&mut s2, &vmas, &mut space, &mut frames, 0x0013_0010, 0x3);
    assert_eq!(r2, FaultOutcome::Fatal);
    assert_eq!(row(&s2, 9), "  VMA region: Identity [0x00000000-0x04000000]");
}
