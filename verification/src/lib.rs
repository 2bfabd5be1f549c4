//! A small x86 (32-bit) kernel core: physical frame allocation, two-level
//! paging structures, the virtual memory area table, the kernel heap, the
//! text console and the interactive shell, each modelled on plain values.

pub mod paging;
pub mod vga;
pub mod shell;
pub mod interrupts;
pub mod gdt;
pub mod heap;
