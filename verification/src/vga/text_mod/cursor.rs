//! The text cursor.
use vstd::prelude::*;

verus! {

/// The cursor position: column `x`, row `y`.
#[derive(Clone, Copy)]
pub struct Cursor {
    /// Column.
    pub x: u16,
    /// Row.
    pub y: u16,
}

impl Cursor {
    /// The cell index the hardware cursor register takes: `y * 80 + x`.
    pub fn position(&self) -> (r: u16)
        requires
            self.y * 80 + self.x <= u16::MAX,
        ensures
            r == self.y * 80 + self.x,
    {
        self.y * 80 + self.x
    }
}

/// The VGA controller's index register port.
pub const VGA_CMD_PORT: u16 = 0x3D4;

/// The VGA controller's data register port.
pub const VGA_DATA_PORT: u16 = 0x3D5;

/// The port writes that select the cursor-start register (0x0A) and write
/// `start`, then the cursor-end register (0x0B) and write `end`: the cursor
/// covers scanlines `start` to `end`.
pub fn cursor_shape_writes(start: u8, end: u8) -> (r: Vec<(u16, u8)>)
    ensures
        r@ == seq![(VGA_CMD_PORT, 0x0Au8), (VGA_DATA_PORT, start), (VGA_CMD_PORT, 0x0Bu8), (VGA_DATA_PORT, end)],
{
    let mut v: Vec<(u16, u8)> = Vec::new();
    v.push((VGA_CMD_PORT, 0x0A));
    v.push((VGA_DATA_PORT, start));
    v.push((VGA_CMD_PORT, 0x0B));
    v.push((VGA_DATA_PORT, end));
    assert(v@ =~= seq![(VGA_CMD_PORT, 0x0Au8), (VGA_DATA_PORT, start), (VGA_CMD_PORT, 0x0Bu8), (VGA_DATA_PORT, end)]);
    v
}

/// The block cursor: scanlines 0 to 15.
pub fn big_cursor_writes() -> (r: Vec<(u16, u8)>)
    ensures
        r@ == seq![(VGA_CMD_PORT, 0x0Au8), (VGA_DATA_PORT, 0x00u8), (VGA_CMD_PORT, 0x0Bu8), (VGA_DATA_PORT, 0x0Fu8)],
{
    cursor_shape_writes(0x00, 0x0F)
}

/// The thin cursor: the cursor-start register gets 0x20, the end 0x07.
pub fn small_cursor_writes() -> (r: Vec<(u16, u8)>)
    ensures
        r@ == seq![(VGA_CMD_PORT, 0x0Au8), (VGA_DATA_PORT, 0x20u8), (VGA_CMD_PORT, 0x0Bu8), (VGA_DATA_PORT, 0x07u8)],
{
    cursor_shape_writes(0x20, 0x07)
}

/// The port writes that move the hardware cursor to cell `position`: the
/// high byte to register 0x0E, the low byte to register 0x0F.
pub fn cursor_position_writes(position: u16) -> (r: Vec<(u16, u8)>)
    ensures
        r@ == seq![
            (VGA_CMD_PORT, 0x0Eu8),
            (VGA_DATA_PORT, (position / 256) as u8),
            (VGA_CMD_PORT, 0x0Fu8),
            (VGA_DATA_PORT, (position % 256) as u8),
        ],
{
    let high = (position >> 8) as u8;
    let low = (position & 0xFF) as u8;
    assert((position >> 8u16) as u8 == (position / 256) as u8) by (bit_vector);
    assert((position & 0xFFu16) as u8 == (position % 256) as u8) by (bit_vector);
    let mut v: Vec<(u16, u8)> = Vec::new();
    v.push((VGA_CMD_PORT, 0x0E));
    v.push((VGA_DATA_PORT, high));
    v.push((VGA_CMD_PORT, 0x0F));
    v.push((VGA_DATA_PORT, low));
    assert(v@ =~= seq![
        (VGA_CMD_PORT, 0x0Eu8),
        (VGA_DATA_PORT, (position / 256) as u8),
        (VGA_CMD_PORT, 0x0Fu8),
        (VGA_DATA_PORT, (position % 256) as u8),
    ]);
    v
}

/// The cursor-start register with the colour bits `color` added.
pub fn cursor_start_with_color(cursor_start: u8, color: u8) -> (r: u8)
    ensures
        r == cursor_start | color,
{
    cursor_start | color
}

/// The cursor-start register with blinking on (bit 0 clear) or off (bit 0
/// set).
pub fn cursor_start_blinking(cursor_start: u8, blink: bool) -> (r: u8)
    ensures
        r == if blink { cursor_start & 0xFEu8 } else { cursor_start | 0x01u8 },
{
    if blink {
        cursor_start & 0xFE
    } else {
        cursor_start | 0x01
    }
}

/// The cursor-start register with its low three bits set to the low three
/// bits of `rate`.
pub fn cursor_start_with_rate(cursor_start: u8, rate: u8) -> (r: u8)
    ensures
        r == (cursor_start & 0xF8u8) | (rate & 0x07u8),
{
    (cursor_start & 0xF8) | (rate & 0x07)
}

/// The cursor-start register with the cursor-disable bit (0x20) set.
pub fn cursor_start_disabled(cursor_start: u8) -> (r: u8)
    ensures
        r == cursor_start | 0x20u8,
{
    cursor_start | 0x20
}

} // verus!
