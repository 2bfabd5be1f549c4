//! The interrupt flag of EFLAGS.
use vstd::prelude::*;

verus! {

/// The interrupt-enable flag (IF, bit 9) of EFLAGS.
pub const EFLAGS_IF: u32 = 0x200;

/// Whether maskable interrupts are enabled in the EFLAGS value `eflags`.
pub fn are_interrupts_enabled(eflags: u32) -> (r: bool)
    ensures
        r == (eflags & EFLAGS_IF != 0),
{
    eflags & EFLAGS_IF != 0
}

} // verus!
