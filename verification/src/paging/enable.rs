//! The paging bit of CR0. Reading and writing the control registers is the
//! caller's; these compute the values.
use vstd::prelude::*;

verus! {

/// The paging bit (PG, bit 31) of CR0.
pub const CR0_PG: u32 = 0x8000_0000;

/// Whether paging is on in the CR0 value `cr0`.
pub fn is_paging_enabled(cr0: u32) -> (r: bool)
    ensures
        r == (cr0 & CR0_PG != 0),
{
    cr0 & CR0_PG != 0
}

/// `cr0` with the paging bit set: what turns paging on.
pub fn cr0_with_paging(cr0: u32) -> (r: u32)
    ensures
        r == cr0 | CR0_PG,
        r & CR0_PG != 0,
        r & !CR0_PG == cr0 & !CR0_PG,
{
    assert((cr0 | 0x8000_0000u32) & 0x8000_0000u32 != 0 && (cr0 | 0x8000_0000u32) & !0x8000_0000u32 == cr0
        & !0x8000_0000u32) by (bit_vector);
    cr0 | CR0_PG
}

/// `cr0` with the paging bit clear: what turns paging off.
pub fn cr0_without_paging(cr0: u32) -> (r: u32)
    ensures
        r == cr0 & !CR0_PG,
        r & CR0_PG == 0,
        r & !CR0_PG == cr0 & !CR0_PG,
{
    assert((cr0 & !0x8000_0000u32) & 0x8000_0000u32 == 0 && (cr0 & !0x8000_0000u32) & !0x8000_0000u32 == cr0
        & !0x8000_0000u32) by (bit_vector);
    cr0 & !CR0_PG
}

/// Whether `pd_addr` can be loaded into CR3: the page directory must be
/// 4 KB aligned.
pub fn is_valid_cr3(pd_addr: u32) -> (r: bool)
    ensures
        r == (pd_addr & 0xFFFu32 == 0),
{
    pd_addr & 0xFFF == 0
}

} // verus!
