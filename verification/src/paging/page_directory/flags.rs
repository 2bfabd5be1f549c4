//! Flags of page directory entries.
use vstd::prelude::*;

verus! {

/// Page table is present in memory.
pub const PRESENT: u32 = 1;
/// Pages below are writable (else read-only).
pub const WRITABLE: u32 = 2;
/// Pages below are accessible from user mode (else supervisor only).
pub const USER: u32 = 4;
/// Write-through caching.
pub const WRITE_THROUGH: u32 = 8;
/// Caching disabled.
pub const CACHE_DISABLED: u32 = 16;
/// Entry has been accessed (set by the CPU).
pub const ACCESSED: u32 = 32;
/// Page size: 0 = 4 KB pages, 1 = 4 MB pages (with CR4.PSE).
pub const PAGE_SIZE: u32 = 128;

} // verus!
