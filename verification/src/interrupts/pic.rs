//! The two 8259 interrupt controllers.
use vstd::prelude::*;

verus! {

/// The port writes that set up both controllers: vectors 0x20 (master) and
/// 0x28 (slave), cascade on IRQ2, 8086 mode, then every line masked but the
/// keyboard's (IRQ1).
pub fn init_pic_sequence() -> (r: Vec<(u16, u8)>)
    ensures
        r@ == seq![
            (0x20u16, 0x11u8), (0x21u16, 0x20u8), (0x21u16, 0x04u8), (0x21u16, 0x01u8),
            (0xA0u16, 0x11u8), (0xA1u16, 0x28u8), (0xA1u16, 0x02u8), (0xA1u16, 0x01u8),
            (0x21u16, 0xFFu8), (0xA1u16, 0xFFu8),
            (0x21u16, 0xFDu8), (0xA1u16, 0xFFu8),
        ],
{
    let mut v: Vec<(u16, u8)> = Vec::new();
    v.push((0x20, 0x11));
    v.push((0x21, 0x20));
    v.push((0x21, 0x04));
    v.push((0x21, 0x01));
    v.push((0xA0, 0x11));
    v.push((0xA1, 0x28));
    v.push((0xA1, 0x02));
    v.push((0xA1, 0x01));
    v.push((0x21, 0xFF));
    v.push((0xA1, 0xFF));
    v.push((0x21, 0xFD));
    v.push((0xA1, 0xFF));
    assert(v@ =~= seq![
        (0x20u16, 0x11u8), (0x21u16, 0x20u8), (0x21u16, 0x04u8), (0x21u16, 0x01u8),
        (0xA0u16, 0x11u8), (0xA1u16, 0x28u8), (0xA1u16, 0x02u8), (0xA1u16, 0x01u8),
        (0x21u16, 0xFFu8), (0xA1u16, 0xFFu8),
        (0x21u16, 0xFDu8), (0xA1u16, 0xFFu8),
    ]);
    v
}

} // verus!
