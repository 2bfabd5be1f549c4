//! What the exception handlers print and decide. The handlers themselves
//! (entered from the interrupt stubs, reading CR2 and halting the CPU) call
//! these with plain values.
use vstd::prelude::*;
use crate::vga::text_mod::out::{Screen, ScreenState, Color, on_screen};
use crate::shell::commands::{enc, on_black, print_lines, piece, hex_pieces, emit, emit_hex};
use crate::paging::vma::{Vma, VmaKind, VmaTable, VMA_DEMAND, VMA_WRITE, VMA_USER};
use crate::paging::mapper::AddressSpace;
use crate::paging::frame_allocator::FrameAllocator;

verus! {

/// What halting prints.
pub open spec fn halt_output() -> Seq<(Seq<u8>, u8)> {
    seq![piece("\nSystem halted.\n"@, Color::Red)]
}

/// Print the halt notice; the caller then halts the CPU for good.
pub fn halt_notice(screen: &mut Screen)
    requires
        on_screen(old(screen).state()),
    ensures
        on_screen(final(screen).state()),
        final(screen).state() == print_lines(old(screen).state(), halt_output()),
{
    let ghost st0 = screen.state();
    let g = emit(screen, "\nSystem halted.\n", Color::Red, Ghost(st0), Ghost(Seq::empty()));
    proof {
        assert(g@ =~= halt_output());
    }
}

/// The CPU exceptions that have a handler, by vector.
#[derive(Clone, Copy, PartialEq, Eq, Structural, Debug)]
pub enum CpuException {
    DivisionError,
    Debug,
    Breakpoint,
    Overflow,
    BoundRange,
    InvalidOpcode,
    DeviceNotAvailable,
    DoubleFault,
    CoprocessorSegment,
    InvalidTss,
    SegmentNotPresent,
    StackSegmentFault,
    GeneralProtectionFault,
    X87FloatingPoint,
    AlignmentCheck,
    MachineCheck,
    SimdFloatingPoint,
    ControlProtection,
    HypervisorInjection,
    VmmCommunication,
    SecurityException,
}

/// Whether the handler of `e` halts: all do but debug and breakpoint, which
/// are used for debugging.
pub open spec fn exception_halts(e: CpuException) -> bool {
    !(e == CpuException::Debug || e == CpuException::Breakpoint)
}

/// The report of `e`: a title naming it and its vector, and what it means.
pub open spec fn exception_output(e: CpuException) -> Seq<(Seq<u8>, u8)> {
    match e {
        CpuException::DivisionError => seq![
            piece("\n[EXCEPTION] Division Error (0)\n"@, Color::Red),
            piece("The CPU attempted to divide by zero or the divisor was too small.\n"@, Color::White),
        ],
        CpuException::Debug => seq![
            piece("\n[EXCEPTION] Debug (1)\n"@, Color::Yellow),
            piece("Debug exception triggered.\n"@, Color::White),
        ],
        CpuException::Breakpoint => seq![
            piece("\n[EXCEPTION] Breakpoint (3)\n"@, Color::Yellow),
            piece("INT3 breakpoint triggered.\n"@, Color::White),
        ],
        CpuException::Overflow => seq![
            piece("\n[EXCEPTION] Overflow (4)\n"@, Color::Red),
            piece("Overflow exception - result too large.\n"@, Color::White),
        ],
        CpuException::BoundRange => seq![
            piece("\n[EXCEPTION] Bound Range Exceeded (5)\n"@, Color::Red),
            piece("BOUND instruction detected out-of-range value.\n"@, Color::White),
        ],
        CpuException::InvalidOpcode => seq![
            piece("\n[EXCEPTION] Invalid Opcode (6)\n"@, Color::Red),
            piece("The CPU encountered an invalid or undefined instruction.\n"@, Color::White),
        ],
        CpuException::DeviceNotAvailable => seq![
            piece("\n[EXCEPTION] Device Not Available (7)\n"@, Color::Red),
            piece("FPU/MMX/SSE instruction used but device not available.\n"@, Color::White),
        ],
        CpuException::DoubleFault => seq![
            piece("\n[EXCEPTION] Double Fault (8)\n"@, Color::Red),
            piece("A second exception occurred while handling the first!\n"@, Color::White),
            piece("This is a fatal error. System halted.\n"@, Color::Red),
        ],
        CpuException::CoprocessorSegment => seq![
            piece("\n[EXCEPTION] Coprocessor Segment Overrun (9)\n"@, Color::Red),
            piece("Legacy FPU segment overrun.\n"@, Color::White),
        ],
        CpuException::InvalidTss => seq![
            piece("\n[EXCEPTION] Invalid TSS (10)\n"@, Color::Red),
            piece("Task State Segment is invalid.\n"@, Color::White),
        ],
        CpuException::SegmentNotPresent => seq![
            piece("\n[EXCEPTION] Segment Not Present (11)\n"@, Color::Red),
            piece("A segment selector references a descriptor not present.\n"@, Color::White),
        ],
        CpuException::StackSegmentFault => seq![
            piece("\n[EXCEPTION] Stack Segment Fault (12)\n"@, Color::Red),
            piece("Stack segment fault occurred.\n"@, Color::White),
        ],
        CpuException::GeneralProtectionFault => seq![
            piece("\n[EXCEPTION] General Protection Fault (13)\n"@, Color::Red),
            piece("General protection violation. Possible causes:\n"@, Color::White),
            piece("  - Segment limit exceeded\n"@, Color::White),
            piece("  - Privilege level violation\n"@, Color::White),
            piece("  - Invalid segment selector\n"@, Color::White),
        ],
        CpuException::X87FloatingPoint => seq![
            piece("\n[EXCEPTION] x87 Floating-Point Exception (16)\n"@, Color::Red),
            piece("x87 FPU floating-point error.\n"@, Color::White),
        ],
        CpuException::AlignmentCheck => seq![
            piece("\n[EXCEPTION] Alignment Check (17)\n"@, Color::Red),
            piece("Alignment check exception - misaligned memory access.\n"@, Color::White),
        ],
        CpuException::MachineCheck => seq![
            piece("\n[EXCEPTION] Machine Check (18)\n"@, Color::Red),
            piece("Machine check exception - hardware error detected.\n"@, Color::White),
        ],
        CpuException::SimdFloatingPoint => seq![
            piece("\n[EXCEPTION] SIMD Floating-Point Exception (19)\n"@, Color::Red),
            piece("SSE/AVX floating-point error.\n"@, Color::White),
        ],
        CpuException::ControlProtection => seq![
            piece("\n[EXCEPTION] Control Protection Exception (21)\n"@, Color::Red),
            piece("Control-flow protection violation.\n"@, Color::White),
        ],
        CpuException::HypervisorInjection => seq![
            piece("\n[EXCEPTION] Hypervisor Injection Exception (28)\n"@, Color::Red),
            piece("Hypervisor injection exception.\n"@, Color::White),
        ],
        CpuException::VmmCommunication => seq![
            piece("\n[EXCEPTION] VMM Communication Exception (29)\n"@, Color::Red),
            piece("VMM communication exception.\n"@, Color::White),
        ],
        CpuException::SecurityException => seq![
            piece("\n[EXCEPTION] Security Exception (30)\n"@, Color::Red),
            piece("Security exception - security violation.\n"@, Color::White),
        ],
    }
}

/// Print the report of `e`, then the halt notice when its handler halts.
/// Returns whether the CPU is to be halted.
pub fn report_exception(screen: &mut Screen, e: CpuException) -> (halt: bool)
    requires
        on_screen(old(screen).state()),
    ensures
        on_screen(final(screen).state()),
        halt == exception_halts(e),
        final(screen).state() == print_lines(
            old(screen).state(),
            exception_output(e) + if halt { halt_output() } else { Seq::empty() },
        ),
{
    let ghost st0 = screen.state();
    let g0: Ghost<Seq<(Seq<u8>, u8)>> = Ghost(Seq::empty());
    let (title, text, color): (&str, &str, Color) = match e {
        CpuException::DivisionError => (
            "\n[EXCEPTION] Division Error (0)\n",
            "The CPU attempted to divide by zero or the divisor was too small.\n",
            Color::Red,
        ),
        CpuException::Debug => ("\n[EXCEPTION] Debug (1)\n", "Debug exception triggered.\n", Color::Yellow),
        CpuException::Breakpoint => ("\n[EXCEPTION] Breakpoint (3)\n", "INT3 breakpoint triggered.\n", Color::Yellow),
        CpuException::Overflow => ("\n[EXCEPTION] Overflow (4)\n", "Overflow exception - result too large.\n", Color::Red),
        CpuException::BoundRange => (
            "\n[EXCEPTION] Bound Range Exceeded (5)\n",
            "BOUND instruction detected out-of-range value.\n",
            Color::Red,
        ),
        CpuException::InvalidOpcode => (
            "\n[EXCEPTION] Invalid Opcode (6)\n",
            "The CPU encountered an invalid or undefined instruction.\n",
            Color::Red,
        ),
        CpuException::DeviceNotAvailable => (
            "\n[EXCEPTION] Device Not Available (7)\n",
            "FPU/MMX/SSE instruction used but device not available.\n",
            Color::Red,
        ),
        CpuException::DoubleFault => (
            "\n[EXCEPTION] Double Fault (8)\n",
            "A second exception occurred while handling the first!\n",
            Color::Red,
        ),
        CpuException::CoprocessorSegment => (
            "\n[EXCEPTION] Coprocessor Segment Overrun (9)\n",
            "Legacy FPU segment overrun.\n",
            Color::Red,
        ),
        CpuException::InvalidTss => ("\n[EXCEPTION] Invalid TSS (10)\n", "Task State Segment is invalid.\n", Color::Red),
        CpuException::SegmentNotPresent => (
            "\n[EXCEPTION] Segment Not Present (11)\n",
            "A segment selector references a descriptor not present.\n",
            Color::Red,
        ),
        CpuException::StackSegmentFault => (
            "\n[EXCEPTION] Stack Segment Fault (12)\n",
            "Stack segment fault occurred.\n",
            Color::Red,
        ),
        CpuException::GeneralProtectionFault => (
            "\n[EXCEPTION] General Protection Fault (13)\n",
            "General protection violation. Possible causes:\n",
            Color::Red,
        ),
        CpuException::X87FloatingPoint => (
            "\n[EXCEPTION] x87 Floating-Point Exception (16)\n",
            "x87 FPU floating-point error.\n",
            Color::Red,
        ),
        CpuException::AlignmentCheck => (
            "\n[EXCEPTION] Alignment Check (17)\n",
            "Alignment check exception - misaligned memory access.\n",
            Color::Red,
        ),
        CpuException::MachineCheck => (
            "\n[EXCEPTION] Machine Check (18)\n",
            "Machine check exception - hardware error detected.\n",
            Color::Red,
        ),
        CpuException::SimdFloatingPoint => (
            "\n[EXCEPTION] SIMD Floating-Point Exception (19)\n",
            "SSE/AVX floating-point error.\n",
            Color::Red,
        ),
        CpuException::ControlProtection => (
            "\n[EXCEPTION] Control Protection Exception (21)\n",
            "Control-flow protection violation.\n",
            Color::Red,
        ),
        CpuException::HypervisorInjection => (
            "\n[EXCEPTION] Hypervisor Injection Exception (28)\n",
            "Hypervisor injection exception.\n",
            Color::Red,
        ),
        CpuException::VmmCommunication => (
            "\n[EXCEPTION] VMM Communication Exception (29)\n",
            "VMM communication exception.\n",
            Color::Red,
        ),
        CpuException::SecurityException => (
            "\n[EXCEPTION] Security Exception (30)\n",
            "Security exception - security violation.\n",
            Color::Red,
        ),
    };
    let g1 = emit(screen, title, color, Ghost(st0), g0);
    let mut g = emit(screen, text, Color::White, Ghost(st0), g1);
    match e {
        CpuException::DoubleFault => {
            g = emit(screen, "This is a fatal error. System halted.\n", Color::Red, Ghost(st0), g);
        },
        CpuException::GeneralProtectionFault => {
            g = emit(screen, "  - Segment limit exceeded\n", Color::White, Ghost(st0), g);
            g = emit(screen, "  - Privilege level violation\n", Color::White, Ghost(st0), g);
            g = emit(screen, "  - Invalid segment selector\n", Color::White, Ghost(st0), g);
        },
        _ => {},
    }
    let halt = match e {
        CpuException::Debug | CpuException::Breakpoint => false,
        _ => true,
    };
    if halt {
        g = emit(screen, "\nSystem halted.\n", Color::Red, Ghost(st0), g);
    }
    proof {
        assert(g@ =~= exception_output(e) + if halt { halt_output() } else { Seq::empty() });
    }
    halt
}

/// The fault hit a region whose pages are mapped on demand, on a page that
/// is not present (bit 0 of the error code clear), and not a guard page.
pub open spec fn demand_fault(v: Vma, error_code: u32) -> bool {
    &&& v.kind != VmaKind::Guard
    &&& v.flags.0 & VMA_DEMAND != 0
    &&& error_code & 1u32 == 0
}

/// What a fault on a guard page prints: a stack overflow, the address and
/// the guard region, then the halt notice.
pub open spec fn guard_output(fault_addr: u32, v: Vma) -> Seq<(Seq<u8>, u8)> {
    seq![piece("\n[STACK OVERFLOW] "@, Color::Red), piece("at "@, Color::White)] + hex_pieces(fault_addr) + seq![
        piece("\n"@, Color::White),
        piece("  The stack grew past its guard page!\n"@, Color::White),
        piece("  Guard region: "@, Color::White),
    ] + hex_pieces(v.start) + seq![piece(" - "@, Color::White)] + hex_pieces(v.end) + seq![piece("\n"@, Color::White)]
        + halt_output()
}

/// What a demand fault with no frame left prints, then the halt notice.
pub open spec fn out_of_frames_output(fault_addr: u32) -> Seq<(Seq<u8>, u8)> {
    seq![piece("\n[PAGE FAULT] Demand paging FAILED (out of frames) at "@, Color::Red)] + hex_pieces(fault_addr) + seq![
        piece("\n"@, Color::White),
    ] + halt_output()
}

/// How the diagnostic shows the region of the fault.
pub open spec fn region_lines(region: Option<Vma>) -> Seq<(Seq<u8>, u8)> {
    match region {
        Some(v) => seq![
            (enc(crate::paging::vma::kind_label(v.kind)), on_black(Color::Yellow)),
            piece(" ["@, Color::White),
        ] + hex_pieces(v.start) + seq![piece("-"@, Color::White)] + hex_pieces(v.end) + seq![piece("]\n"@, Color::White)],
        None => seq![piece("NONE (address not in any known region)\n"@, Color::Red)],
    }
}

/// The head of the diagnostic: the address and the error code.
pub open spec fn fault_head(fault_addr: u32, error_code: u32) -> Seq<(Seq<u8>, u8)> {
    seq![piece("\n[PAGE FAULT] "@, Color::Red), piece("at "@, Color::White)] + hex_pieces(fault_addr) + seq![
        piece("\n"@, Color::White),
        piece("  Error code: "@, Color::White),
    ] + hex_pieces(error_code) + seq![piece("\n"@, Color::White)]
}

/// Each bit of the error code explained: present, write, user, reserved,
/// instruction fetch.
pub open spec fn fault_bits(error_code: u32) -> Seq<(Seq<u8>, u8)> {
    let present = error_code & 1u32 != 0;
    let write = error_code & 2u32 != 0;
    let user = error_code & 4u32 != 0;
    let reserved = error_code & 8u32 != 0;
    let fetch = error_code & 16u32 != 0;
    seq![
        piece("  P (present) : "@, Color::White),
        if present {
            piece("1 - protection violation (page IS mapped)\n"@, Color::Yellow)
        } else {
            piece("0 - page not present (not mapped)\n"@, Color::Yellow)
        },
        piece("  W (write)   : "@, Color::White),
        if write { piece("1 - caused by a WRITE\n"@, Color::Yellow) } else { piece("0 - caused by a READ\n"@, Color::Yellow) },
        piece("  U (user)    : "@, Color::White),
        if user { piece("1 - user mode\n"@, Color::Yellow) } else { piece("0 - supervisor (kernel) mode\n"@, Color::Yellow) },
        piece("  R (reserved): "@, Color::White),
        if reserved {
            piece("1 - reserved bit set in PTE!\n"@, Color::Red)
        } else {
            piece("0 - no reserved-bit violation\n"@, Color::LightGreen)
        },
        piece("  I (fetch)   : "@, Color::White),
        if fetch { piece("1 - instruction fetch\n"@, Color::Yellow) } else { piece("0 - data access\n"@, Color::LightGreen) },
    ]
}

/// The one-line summary: who accessed how, what kind of page, where.
pub open spec fn fault_summary(fault_addr: u32, error_code: u32) -> Seq<(Seq<u8>, u8)> {
    let present = error_code & 1u32 != 0;
    let write = error_code & 2u32 != 0;
    let user = error_code & 4u32 != 0;
    let fetch = error_code & 16u32 != 0;
    seq![
        piece("\n  => "@, Color::White),
        if user { piece("User "@, Color::Yellow) } else { piece("Kernel "@, Color::Yellow) },
        if write {
            piece("WRITE"@, Color::Yellow)
        } else if fetch {
            piece("FETCH"@, Color::Yellow)
        } else {
            piece("READ"@, Color::Yellow)
        },
        piece(" to a "@, Color::White),
        if present { piece("PRESENT"@, Color::Yellow) } else { piece("NON-PRESENT"@, Color::Yellow) },
        piece(" page at "@, Color::White),
    ] + hex_pieces(fault_addr) + seq![piece("\n"@, Color::White)]
}

/// The full diagnostic of a fault that cannot be resolved: the address, the
/// error code and each of its bits explained, the region, a one-line
/// summary, then the halt notice.
pub open spec fn fault_report(fault_addr: u32, error_code: u32, region: Option<Vma>) -> Seq<(Seq<u8>, u8)> {
    fault_head(fault_addr, error_code) + fault_bits(error_code) + seq![piece("\n  VMA region: "@, Color::White)]
        + region_lines(region) + fault_summary(fault_addr, error_code) + halt_output()
}

/// What the page-fault handler decided.
#[derive(Clone, Copy, PartialEq, Eq, Structural, Debug)]
pub enum FaultOutcome {
    /// A guard page was hit: the stack overflowed. The CPU is halted.
    StackOverflow,
    /// The page at this address was mapped to a fresh frame; the caller
    /// zeroes it and resumes the faulting instruction.
    Resumed(u32),
    /// A demand fault found no free frame. The CPU is halted.
    OutOfFrames,
    /// Nothing resolves the fault; the diagnostic was printed. The CPU is
    /// halted.
    Fatal,
}

/// Print the region line of the diagnostic.
fn emit_region(
    screen: &mut Screen,
    region: Option<Vma>,
    Ghost(st0): Ghost<ScreenState>,
    Ghost(lines): Ghost<Seq<(Seq<u8>, u8)>>,
) -> (r: Ghost<Seq<(Seq<u8>, u8)>>)
    requires
        on_screen(old(screen).state()),
        old(screen).state() == print_lines(st0, lines),
    ensures
        on_screen(final(screen).state()),
        r@ == lines + region_lines(region),
        final(screen).state() == print_lines(st0, r@),
{
    match region {
        Some(v) => {
            let mut g = emit(screen, v.kind_name(), Color::Yellow, Ghost(st0), Ghost(lines));
            g = emit(screen, " [", Color::White, Ghost(st0), g);
            g = emit_hex(screen, v.start, Ghost(st0), g);
            g = emit(screen, "-", Color::White, Ghost(st0), g);
            g = emit_hex(screen, v.end, Ghost(st0), g);
            g = emit(screen, "]\n", Color::White, Ghost(st0), g);
            assert(g@ =~= lines + region_lines(region));
            g
        },
        None => {
            let g = emit(screen, "NONE (address not in any known region)\n", Color::Red, Ghost(st0), Ghost(lines));
            assert(g@ =~= lines + region_lines(region));
            g
        },
    }
}

/// Print the explanation of each bit of the error code.
fn emit_bits(
    screen: &mut Screen,
    error_code: u32,
    Ghost(st0): Ghost<ScreenState>,
    Ghost(lines): Ghost<Seq<(Seq<u8>, u8)>>,
) -> (r: Ghost<Seq<(Seq<u8>, u8)>>)
    requires
        on_screen(old(screen).state()),
        old(screen).state() == print_lines(st0, lines),
    ensures
        on_screen(final(screen).state()),
        r@ == lines + fault_bits(error_code),
        final(screen).state() == print_lines(st0, r@),
{
    let mut g = emit(screen, "  P (present) : ", Color::White, Ghost(st0), Ghost(lines));
    if error_code & 1 != 0 {
        g = emit(screen, "1 - protection violation (page IS mapped)\n", Color::Yellow, Ghost(st0), g);
    } else {
        g = emit(screen, "0 - page not present (not mapped)\n", Color::Yellow, Ghost(st0), g);
    }
    g = emit(screen, "  W (write)   : ", Color::White, Ghost(st0), g);
    if error_code & 2 != 0 {
        g = emit(screen, "1 - caused by a WRITE\n", Color::Yellow, Ghost(st0), g);
    } else {
        g = emit(screen, "0 - caused by a READ\n", Color::Yellow, Ghost(st0), g);
    }
    g = emit(screen, "  U (user)    : ", Color::White, Ghost(st0), g);
    if error_code & 4 != 0 {
        g = emit(screen, "1 - user mode\n", Color::Yellow, Ghost(st0), g);
    } else {
        g = emit(screen, "0 - supervisor (kernel) mode\n", Color::Yellow, Ghost(st0), g);
    }
    g = emit(screen, "  R (reserved): ", Color::White, Ghost(st0), g);
    if error_code & 8 != 0 {
        g = emit(screen, "1 - reserved bit set in PTE!\n", Color::Red, Ghost(st0), g);
    } else {
        g = emit(screen, "0 - no reserved-bit violation\n", Color::LightGreen, Ghost(st0), g);
    }
    g = emit(screen, "  I (fetch)   : ", Color::White, Ghost(st0), g);
    if error_code & 16 != 0 {
        g = emit(screen, "1 - instruction fetch\n", Color::Yellow, Ghost(st0), g);
    } else {
        g = emit(screen, "0 - data access\n", Color::LightGreen, Ghost(st0), g);
    }
    assert(g@ =~= lines + fault_bits(error_code));
    g
}

/// Print the one-line summary of the fault.
fn emit_summary(
    screen: &mut Screen,
    fault_addr: u32,
    error_code: u32,
    Ghost(st0): Ghost<ScreenState>,
    Ghost(lines): Ghost<Seq<(Seq<u8>, u8)>>,
) -> (r: Ghost<Seq<(Seq<u8>, u8)>>)
    requires
        on_screen(old(screen).state()),
        old(screen).state() == print_lines(st0, lines),
    ensures
        on_screen(final(screen).state()),
        r@ == lines + fault_summary(fault_addr, error_code),
        final(screen).state() == print_lines(st0, r@),
{
    let mut g = emit(screen, "\n  => ", Color::White, Ghost(st0), Ghost(lines));
    if error_code & 4 != 0 {
        g = emit(screen, "User ", Color::Yellow, Ghost(st0), g);
    } else {
        g = emit(screen, "Kernel ", Color::Yellow, Ghost(st0), g);
    }
    if error_code & 2 != 0 {
        g = emit(screen, "WRITE", Color::Yellow, Ghost(st0), g);
    } else if error_code & 16 != 0 {
        g = emit(screen, "FETCH", Color::Yellow, Ghost(st0), g);
    } else {
        g = emit(screen, "READ", Color::Yellow, Ghost(st0), g);
    }
    g = emit(screen, " to a ", Color::White, Ghost(st0), g);
    if error_code & 1 != 0 {
        g = emit(screen, "PRESENT", Color::Yellow, Ghost(st0), g);
    } else {
        g = emit(screen, "NON-PRESENT", Color::Yellow, Ghost(st0), g);
    }
    g = emit(screen, " page at ", Color::White, Ghost(st0), g);
    g = emit_hex(screen, fault_addr, Ghost(st0), g);
    g = emit(screen, "\n", Color::White, Ghost(st0), g);
    assert(g@ =~= lines + fault_summary(fault_addr, error_code));
    g
}

/// Print the full diagnostic of an unresolved fault and the halt notice.
fn fault_diagnostic(screen: &mut Screen, fault_addr: u32, error_code: u32, region: Option<Vma>)
    requires
        on_screen(old(screen).state()),
    ensures
        on_screen(final(screen).state()),
        final(screen).state() == print_lines(old(screen).state(), fault_report(fault_addr, error_code, region)),
{
    let ghost st0 = screen.state();
    let mut g = emit(screen, "\n[PAGE FAULT] ", Color::Red, Ghost(st0), Ghost(Seq::empty()));
    g = emit(screen, "at ", Color::White, Ghost(st0), g);
    g = emit_hex(screen, fault_addr, Ghost(st0), g);
    g = emit(screen, "\n", Color::White, Ghost(st0), g);
    g = emit(screen, "  Error code: ", Color::White, Ghost(st0), g);
    g = emit_hex(screen, error_code, Ghost(st0), g);
    g = emit(screen, "\n", Color::White, Ghost(st0), g);
    assert(g@ =~= fault_head(fault_addr, error_code));
    g = emit_bits(screen, error_code, Ghost(st0), g);
    g = emit(screen, "\n  VMA region: ", Color::White, Ghost(st0), g);
    g = emit_region(screen, region, Ghost(st0), g);
    g = emit_summary(screen, fault_addr, error_code, Ghost(st0), g);
    g = emit(screen, "\nSystem halted.\n", Color::Red, Ghost(st0), g);
    assert(g@ =~= fault_report(fault_addr, error_code, region));
}

/// Print the stack overflow report and the halt notice.
fn stack_overflow_report(screen: &mut Screen, fault_addr: u32, v: Vma)
    requires
        on_screen(old(screen).state()),
    ensures
        on_screen(final(screen).state()),
        final(screen).state() == print_lines(old(screen).state(), guard_output(fault_addr, v)),
{
    let ghost st0 = screen.state();
    let mut g = emit(screen, "\n[STACK OVERFLOW] ", Color::Red, Ghost(st0), Ghost(Seq::empty()));
    g = emit(screen, "at ", Color::White, Ghost(st0), g);
    g = emit_hex(screen, fault_addr, Ghost(st0), g);
    g = emit(screen, "\n", Color::White, Ghost(st0), g);
    g = emit(screen, "  The stack grew past its guard page!\n", Color::White, Ghost(st0), g);
    g = emit(screen, "  Guard region: ", Color::White, Ghost(st0), g);
    g = emit_hex(screen, v.start, Ghost(st0), g);
    g = emit(screen, " - ", Color::White, Ghost(st0), g);
    g = emit_hex(screen, v.end, Ghost(st0), g);
    g = emit(screen, "\n", Color::White, Ghost(st0), g);
    g = emit(screen, "\nSystem halted.\n", Color::Red, Ghost(st0), g);
    assert(g@ =~= guard_output(fault_addr, v));
}

/// Print the report of a demand fault with no frame left, and the halt
/// notice.
fn out_of_frames_report(screen: &mut Screen, fault_addr: u32)
    requires
        on_screen(old(screen).state()),
    ensures
        on_screen(final(screen).state()),
        final(screen).state() == print_lines(old(screen).state(), out_of_frames_output(fault_addr)),
{
    let ghost st0 = screen.state();
    let mut g = emit(screen, "\n[PAGE FAULT] Demand paging FAILED (out of frames) at ", Color::Red, Ghost(st0), Ghost(Seq::empty()));
    g = emit_hex(screen, fault_addr, Ghost(st0), g);
    g = emit(screen, "\n", Color::White, Ghost(st0), g);
    g = emit(screen, "\nSystem halted.\n", Color::Red, Ghost(st0), g);
    assert(g@ =~= out_of_frames_output(fault_addr));
}

/// Masking an address down to its page keeps it in the same page.
proof fn lemma_page_base(a: u32)
    ensures
        (a & 0xFFFF_F000u32) & 0xFFFF_F000u32 == a & 0xFFFF_F000u32,
        crate::paging::mapper::pd_index(a & 0xFFFF_F000u32) == crate::paging::mapper::pd_index(a),
        crate::paging::mapper::pt_index(a & 0xFFFF_F000u32) == crate::paging::mapper::pt_index(a),
{
    assert((a & 0xFFFF_F000u32) & 0xFFFF_F000u32 == a & 0xFFFF_F000u32 && ((a & 0xFFFF_F000u32) >> 22u32) & 0x3FFu32
        == (a >> 22u32) & 0x3FFu32 && ((a & 0xFFFF_F000u32) >> 12u32) & 0x3FFu32 == (a >> 12u32) & 0x3FFu32)
        by (bit_vector);
}

/// Decide what a page fault at `fault_addr` with `error_code` does, from
/// the regions `vmas` places it in:
/// - a guard page (a guard region holds the address, whatever other region
///   holds it too): report a stack overflow and halt;
/// - otherwise, in a demand region with the page not present: take a fresh
///   frame, map the page to it (writable and user as the region says) and
///   resume; with no frame left, report it and halt;
/// - anything else: print the full diagnostic and halt.
pub fn exception_page_fault(
    screen: &mut Screen,
    vmas: &VmaTable,
    space: &mut AddressSpace,
    frames: &mut FrameAllocator,
    fault_addr: u32,
    error_code: u32,
) -> (r: FaultOutcome)
    requires
        on_screen(old(screen).state()),
        vmas.wf(),
        old(space).wf(),
        old(frames).wf(),
        (crate::paging::vma::guard_of(vmas.slots(), fault_addr) is None && match crate::paging::vma::region_of(
            vmas.slots(),
            fault_addr,
        ) {
            Some(v) => demand_fault(v, error_code),
            None => false,
        }) ==> old(frames).alloc_in_bounds() && !(crate::heap::table_missing(*old(space), fault_addr as int)
            && old(frames).free_frames() == 1),
    ensures
        on_screen(final(screen).state()),
        final(space).wf(),
        final(frames).wf(),
        ({
            let guard = crate::paging::vma::guard_of(vmas.slots(), fault_addr);
            let region = crate::paging::vma::region_of(vmas.slots(), fault_addr);
            if guard is Some {
                &&& r == FaultOutcome::StackOverflow
                &&& final(screen).state() == print_lines(old(screen).state(), guard_output(fault_addr, guard->0))
                &&& *final(space) == *old(space)
                &&& *final(frames) == *old(frames)
            } else if region is Some && demand_fault(region->0, error_code) {
                match old(frames).next_alloc_index() {
                    Some(idx) => {
                        let frame = (idx * 4096) as u32;
                        let v = region->0;
                        &&& r == FaultOutcome::Resumed(fault_addr & 0xFFFF_F000u32)
                        &&& final(screen).state() == old(screen).state()
                        &&& old(frames).lowest_free_in(idx, 0, old(frames).total() as int)
                        &&& exists|mid: FrameAllocator| #[trigger] old(frames).took_frame(&mid, idx) && mid.wf()
                            && crate::paging::mapper::map_page_effect(
                            *old(space),
                            *final(space),
                            mid,
                            *final(frames),
                            fault_addr & 0xFFFF_F000u32,
                            frame,
                            v.flags.0 & VMA_WRITE != 0,
                            v.flags.0 & VMA_USER != 0,
                        )
                        &&& forall|w: u32| #[trigger] final(space).translate(w) == if crate::paging::mapper::same_page(w, fault_addr) {
                            Some(frame | (w & 0xFFFu32))
                        } else {
                            old(space).translate(w)
                        }
                        &&& final(space).table(crate::paging::mapper::pd_index(fault_addr))[crate::paging::mapper::pt_index(fault_addr)]
                            == crate::paging::page_table::make_entry(
                            frame,
                            crate::paging::mapper::pte_flags_for(v.flags.0 & VMA_WRITE != 0, v.flags.0 & VMA_USER != 0),
                        )
                    },
                    None => {
                        &&& r == FaultOutcome::OutOfFrames
                        &&& final(screen).state() == print_lines(old(screen).state(), out_of_frames_output(fault_addr))
                        &&& *final(space) == *old(space)
                        &&& *final(frames) == *old(frames)
                    },
                }
            } else {
                &&& r == FaultOutcome::Fatal
                &&& final(screen).state() == print_lines(old(screen).state(), fault_report(fault_addr, error_code, region))
                &&& *final(space) == *old(space)
                &&& *final(frames) == *old(frames)
            }
        }),
{
    let present = error_code & 1 != 0;
    if let Some(guard) = vmas.find_guard(fault_addr) {
        stack_overflow_report(screen, fault_addr, guard);
        return FaultOutcome::StackOverflow;
    }
    let found = vmas.find(fault_addr);
    proof {
        crate::paging::vma::lemma_guard_region_found(vmas.slots(), fault_addr);
    }
    if let Some(region) = found {
        if region.flags.demand() && !present {
            let ghost f0 = *frames;
            let ghost s0 = *space;
            proof {
                crate::paging::frame_allocator::law_alloc_picks_free_frame(f0);
                if f0.has_free_in(0, f0.total() as int) {
                    crate::paging::frame_allocator::lemma_free_frames_positive(f0);
                }
            }
            match frames.alloc_frame() {
                Some(frame) => {
                    let page_addr = fault_addr & 0xFFFF_F000;
                    let ghost fa = *frames;
                    let ghost idx = f0.next_alloc_index()->0;
                    proof {
                        lemma_page_base(fault_addr);
                        crate::paging::frame_allocator::lemma_alloc_counts(f0, fa, idx);
                        if crate::heap::table_missing(s0, fault_addr as int) {
                            crate::paging::frame_allocator::lemma_free_frame_exists(fa);
                            crate::paging::frame_allocator::law_alloc_picks_free_frame(fa);
                        }
                        crate::paging::mapper::lemma_aligned_page_pub(frame);
                        crate::paging::mapper::lemma_table_len(s0, crate::paging::mapper::pd_index(fault_addr));
                        crate::paging::mapper::lemma_index_bounds(fault_addr);
                    }
                    space.map_page(frames, page_addr, frame, region.flags.writable(), region.flags.user());
                    proof {
                        assert forall|w: u32| crate::paging::mapper::same_page(w, page_addr)
                            == crate::paging::mapper::same_page(w, fault_addr) by {
                            lemma_page_base(fault_addr);
                        }
                        assert(crate::paging::page_table::make_entry(frame & 0xFFFF_F000u32, crate::paging::mapper::pte_flags_for(
                            region.flags.0 & VMA_WRITE != 0,
                            region.flags.0 & VMA_USER != 0,
                        )) == crate::paging::page_table::make_entry(frame, crate::paging::mapper::pte_flags_for(
                            region.flags.0 & VMA_WRITE != 0,
                            region.flags.0 & VMA_USER != 0,
                        )));
                        assert(f0.took_frame(&fa, idx) && fa.wf());
                    }
                    return FaultOutcome::Resumed(page_addr);
                },
                None => {
                    out_of_frames_report(screen, fault_addr);
                    return FaultOutcome::OutOfFrames;
                },
            }
        }
    }
    fault_diagnostic(screen, fault_addr, error_code, found);
    FaultOutcome::Fatal
}


/// Every exception stops the machine but the debug and breakpoint traps,
/// which hand control back to the program: `report_exception` answers
/// `false` for those two and `true`, after the halt notice, for all others.
pub proof fn law_only_traps_resume(e: CpuException)
    ensures
        exception_halts(e) <==> !(e is Debug || e is Breakpoint),
        e is InvalidOpcode || e is DivisionError || e is DoubleFault || e is GeneralProtectionFault
            ==> exception_halts(e),
{
}

} // verus!
