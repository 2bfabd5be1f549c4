//! Flags of page table entries.
use vstd::prelude::*;

verus! {

/// Page is present in memory.
pub const PRESENT: u32 = 1;
/// Page is writable (else read-only).
pub const WRITABLE: u32 = 2;
/// Page is accessible from user mode (else supervisor only).
pub const USER: u32 = 4;
/// Page uses write-through caching.
pub const WRITE_THROUGH: u32 = 8;
/// Page caching is disabled.
pub const CACHE_DISABLED: u32 = 16;
/// Page has been accessed (set by the CPU).
pub const ACCESSED: u32 = 32;
/// Page has been written to (set by the CPU).
pub const DIRTY: u32 = 64;
/// Page size: 0 = 4 KB, 1 = 4 MB (directory entries with CR4.PSE).
pub const PAGE_SIZE: u32 = 128;
/// Global page, kept in the TLB across CR3 loads (with CR4.PGE).
pub const GLOBAL: u32 = 256;

} // verus!
