//! The global descriptor table: a null descriptor, then flat 4 GB code and
//! data segments for ring 0 and ring 3.
use vstd::prelude::*;

verus! {

/// Physical address the table is copied to before it is loaded.
pub const GDT_ADDR: u32 = 0x800;

/// One segment descriptor.
#[derive(Clone, Copy)]
pub struct GdtEntry {
    /// Bits 15:0 of the segment limit.
    pub limit_low: u16,
    /// Bits 15:0 of the segment base.
    pub base_low: u16,
    /// Bits 23:16 of the segment base.
    pub base_middle: u8,
    /// Access byte: present, privilege level, code or data.
    pub access: u8,
    /// Granularity and size flags, with bits 19:16 of the limit.
    pub granularity: u8,
    /// Bits 31:24 of the segment base.
    pub base_high: u8,
}

/// The operand of `lgdt`: the table's size minus one and its address.
pub struct GdtPointer {
    /// Size of the table in bytes, minus one.
    pub limit: u16,
    /// Address of the table.
    pub base: u32,
}

/// A flat segment (base 0, limit 0xFFFFF in 4 KB units, 32-bit) with
/// access byte `access`.
pub open spec fn flat_segment(access: u8) -> GdtEntry {
    GdtEntry { limit_low: 0xFFFF, base_low: 0, base_middle: 0, access, granularity: 0xCF, base_high: 0 }
}

/// The all-zero descriptor.
pub open spec fn null_segment() -> GdtEntry {
    GdtEntry { limit_low: 0, base_low: 0, base_middle: 0, access: 0, granularity: 0, base_high: 0 }
}

/// The five descriptors: null, kernel code (selector 0x08), kernel data
/// (0x10), user code (0x18) and user data (0x20).
pub fn kernel_gdt() -> (r: [GdtEntry; 5])
    ensures
        r@ == seq![null_segment(), flat_segment(0x9A), flat_segment(0x92), flat_segment(0xFA), flat_segment(0xF2)],
{
    let null = GdtEntry { limit_low: 0, base_low: 0, base_middle: 0, access: 0, granularity: 0, base_high: 0 };
    let kcode = GdtEntry { limit_low: 0xFFFF, base_low: 0, base_middle: 0, access: 0x9A, granularity: 0xCF, base_high: 0 };
    let kdata = GdtEntry { limit_low: 0xFFFF, base_low: 0, base_middle: 0, access: 0x92, granularity: 0xCF, base_high: 0 };
    let ucode = GdtEntry { limit_low: 0xFFFF, base_low: 0, base_middle: 0, access: 0xFA, granularity: 0xCF, base_high: 0 };
    let udata = GdtEntry { limit_low: 0xFFFF, base_low: 0, base_middle: 0, access: 0xF2, granularity: 0xCF, base_high: 0 };
    let r = [null, kcode, kdata, ucode, udata];
    assert(r@ =~= seq![null_segment(), flat_segment(0x9A), flat_segment(0x92), flat_segment(0xFA), flat_segment(0xF2)]);
    r
}

/// The `lgdt` operand for the five descriptors copied to `GDT_ADDR`: limit
/// 5 * 8 - 1 = 39.
pub fn gdt_pointer() -> (r: GdtPointer)
    ensures
        r.limit == 39,
        r.base == GDT_ADDR,
{
    GdtPointer { limit: (5 * 8 - 1) as u16, base: GDT_ADDR }
}

impl GdtEntry {
    /// The descriptor's 8 bytes as the CPU reads them: limit 15:0, base
    /// 15:0, base 23:16, access, granularity, base 31:24, each little-endian.
    pub fn to_bytes(&self) -> (r: [u8; 8])
        ensures
            r@ == seq![
                (self.limit_low % 256) as u8,
                (self.limit_low / 256) as u8,
                (self.base_low % 256) as u8,
                (self.base_low / 256) as u8,
                self.base_middle,
                self.access,
                self.granularity,
                self.base_high,
            ],
    {
        let r = [
            (self.limit_low % 256) as u8,
            (self.limit_low / 256) as u8,
            (self.base_low % 256) as u8,
            (self.base_low / 256) as u8,
            self.base_middle,
            self.access,
            self.granularity,
            self.base_high,
        ];
        assert(r@ =~= seq![r[0], r[1], r[2], r[3], r[4], r[5], r[6], r[7]]);
        r
    }
}

impl GdtPointer {
    /// The `lgdt` operand's 6 bytes: the limit, then the base, each
    /// little-endian.
    pub fn to_bytes(&self) -> (r: [u8; 6])
        ensures
            r@ == seq![
                (self.limit % 256) as u8,
                (self.limit / 256) as u8,
                (self.base % 256) as u8,
                (self.base / 256 % 256) as u8,
                (self.base / 65536 % 256) as u8,
                (self.base / 16777216) as u8,
            ],
    {
        let r = [
            (self.limit % 256) as u8,
            (self.limit / 256) as u8,
            (self.base % 256) as u8,
            (self.base / 256 % 256) as u8,
            (self.base / 65536 % 256) as u8,
            (self.base / 16777216) as u8,
        ];
        assert(r@ =~= seq![r[0], r[1], r[2], r[3], r[4], r[5]]);
        r
    }
}

} // verus!
