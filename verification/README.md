# A verified core for a small x86 kernel

The library (`src/`) holds the kernel's logic as plain values, each piece
with a contract that Verus proves:

- `paging/`: the bitmap frame allocator, page directory and page tables,
  the mapper (an address space is a directory with one table per slot, and
  `translate` is what the hardware walk gives), the table of virtual memory
  regions, the paging bit of CR0, and the boot-time set-up.
- `heap.rs`: the first-fit free-list heap above the identity map, grown by
  mapping fresh frames.
- `interrupts/`: descriptor table entries, the PIC set-up, the keyboard's
  scancodes, and what each CPU exception handler prints and decides (the
  page-fault handler resolves demand faults).
- `vga/`: the 80x25 text screen and the cursor registers.
- `shell/`: the command line, its commands and their output.
- `gdt/`: the segment descriptors.

The binary (`app/`) does what needs the machine: port I/O, control
registers, copying the screen and the page tables to where the hardware
reads them, the interrupt entry points and the boot sequence.

Tests under `tests/` run the library on concrete values.
