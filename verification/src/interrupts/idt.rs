//! Interrupt descriptor table entries.
use vstd::prelude::*;

verus! {

/// Number of entries in the table.
pub const IDT_ENTRIES: usize = 256;

/// One interrupt gate.
#[derive(Clone, Copy)]
pub struct IdtEntry {
    /// Bits 15:0 of the handler address.
    pub offset_low: u16,
    /// Code segment selector.
    pub selector: u16,
    /// Always zero.
    pub zero: u8,
    /// Type and attributes.
    pub flags: u8,
    /// Bits 31:16 of the handler address.
    pub offset_high: u16,
}

/// The operand of `lidt`: the table's size minus one and its address.
pub struct IdtPointer {
    /// Size of the table in bytes, minus one.
    pub limit: u16,
    /// Address of the table.
    pub base: u32,
}

impl IdtEntry {
    /// An empty (not present) entry.
    pub fn missing() -> (r: Self)
        ensures
            r.offset_low == 0 && r.selector == 0 && r.zero == 0 && r.flags == 0 && r.offset_high == 0,
    {
        IdtEntry { offset_low: 0, selector: 0, zero: 0, flags: 0, offset_high: 0 }
    }

    /// A present 32-bit interrupt gate at privilege 0 (flags 0x8E) in the
    /// kernel code segment (selector 0x08) for the handler at `handler_addr`.
    pub fn interrupt_gate(handler_addr: u32) -> (r: Self)
        ensures
            r.offset_low == handler_addr % 0x10000,
            r.offset_high == handler_addr / 0x10000,
            r.selector == 0x08,
            r.zero == 0,
            r.flags == 0x8E,
    {
        let low = handler_addr as u16;
        let high = (handler_addr >> 16) as u16;
        assert(handler_addr as u16 == handler_addr % 0x10000) by (bit_vector);
        assert((handler_addr >> 16u32) as u16 == handler_addr / 0x10000) by (bit_vector);
        IdtEntry { offset_low: low, selector: 0x08, zero: 0, flags: 0x8E, offset_high: high }
    }
}

/// The `lidt` operand for a table of 256 entries at `base`: limit
/// 256 * 8 - 1 = 2047.
pub fn idt_pointer(base: u32) -> (r: IdtPointer)
    ensures
        r.limit == 2047,
        r.base == base,
{
    IdtPointer { limit: (256 * 8 - 1) as u16, base }
}

impl IdtEntry {
    /// The entry's 8 bytes as the CPU reads them: offset 15:0, selector,
    /// zero, flags, offset 31:16, each little-endian.
    pub fn to_bytes(&self) -> (r: [u8; 8])
        ensures
            r@ == seq![
                (self.offset_low % 256) as u8,
                (self.offset_low / 256) as u8,
                (self.selector % 256) as u8,
                (self.selector / 256) as u8,
                self.zero,
                self.flags,
                (self.offset_high % 256) as u8,
                (self.offset_high / 256) as u8,
            ],
    {
        let r = [
            (self.offset_low % 256) as u8,
            (self.offset_low / 256) as u8,
            (self.selector % 256) as u8,
            (self.selector / 256) as u8,
            self.zero,
            self.flags,
            (self.offset_high % 256) as u8,
            (self.offset_high / 256) as u8,
        ];
        assert(r@ =~= seq![r[0], r[1], r[2], r[3], r[4], r[5], r[6], r[7]]);
        r
    }
}

impl IdtPointer {
    /// The `lidt` operand's 6 bytes: the limit, then the base, each
    /// little-endian.
    pub fn to_bytes(&self) -> (r: [u8; 6])
        ensures
            r@ == seq![
                (self.limit % 256) as u8,
                (self.limit / 256) as u8,
                (self.base % 256) as u8,
                (self.base / 256 % 256) as u8,
                (self.base / 65536 % 256) as u8,
                (self.base / 16777216) as u8,
            ],
    {
        let r = [
            (self.limit % 256) as u8,
            (self.limit / 256) as u8,
            (self.base % 256) as u8,
            (self.base / 256 % 256) as u8,
            (self.base / 65536 % 256) as u8,
            (self.base / 16777216) as u8,
        ];
        assert(r@ =~= seq![r[0], r[1], r[2], r[3], r[4], r[5]]);
        r
    }
}

} // verus!
