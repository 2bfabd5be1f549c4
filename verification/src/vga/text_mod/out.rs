//! Text output on the 80x25 screen: each cell holds a character in its low
//! byte and a colour code in its high byte. Printing wraps at the end of a
//! row and scrolls at the bottom of the screen.
use vstd::prelude::*;
use crate::vga::text_mod::cursor::Cursor;

verus! {

/// Screen width in characters.
pub const VGA_WIDTH: usize = 80;

/// Screen height in characters.
pub const VGA_HEIGHT: usize = 25;

/// The sixteen text colours.
#[derive(Clone, Copy, PartialEq, Eq, Structural, Debug)]
pub enum Color {
    Black,
    Blue,
    Green,
    Cyan,
    Red,
    Magenta,
    Brown,
    LightGray,
    DarkGray,
    LightBlue,
    LightGreen,
    LightCyan,
    LightRed,
    Pink,
    Yellow,
    White,
}

/// The number of a colour (0 for black up to 15 for white).
pub open spec fn color_value(c: Color) -> u8 {
    match c {
        Color::Black => 0,
        Color::Blue => 1,
        Color::Green => 2,
        Color::Cyan => 3,
        Color::Red => 4,
        Color::Magenta => 5,
        Color::Brown => 6,
        Color::LightGray => 7,
        Color::DarkGray => 8,
        Color::LightBlue => 9,
        Color::LightGreen => 10,
        Color::LightCyan => 11,
        Color::LightRed => 12,
        Color::Pink => 13,
        Color::Yellow => 14,
        Color::White => 15,
    }
}

impl Color {
    /// The number of the colour.
    pub fn value(self) -> (r: u8)
        ensures
            r == color_value(self),
    {
        match self {
            Color::Black => 0,
            Color::Blue => 1,
            Color::Green => 2,
            Color::Cyan => 3,
            Color::Red => 4,
            Color::Magenta => 5,
            Color::Brown => 6,
            Color::LightGray => 7,
            Color::DarkGray => 8,
            Color::LightBlue => 9,
            Color::LightGreen => 10,
            Color::LightCyan => 11,
            Color::LightRed => 12,
            Color::Pink => 13,
            Color::Yellow => 14,
            Color::White => 15,
        }
    }
}

/// A foreground/background colour pair: background in the high nibble,
/// foreground in the low one.
#[derive(Clone, Copy, PartialEq, Eq, Structural, Debug)]
pub struct ColorCode(pub u8);

impl ColorCode {
    /// The code of `foreground` on `background`.
    pub fn new(foreground: Color, background: Color) -> (r: ColorCode)
        ensures
            r.0 == color_value(background) * 16 + color_value(foreground),
    {
        let f = foreground.value();
        let b = background.value();
        assert((b << 4u8) | f == b * 16 + f) by (bit_vector)
            requires
                b < 16,
                f < 16,
        ;
        ColorCode((b << 4) | f)
    }
}

/// The value of a cell showing byte `b` in colour `color`.
pub open spec fn cell_value(b: u8, color: u8) -> u16 {
    (b as u16) | ((color as u16) << 8u16)
}

/// A blank cell: a space, white on black.
pub open spec fn blank_cell() -> u16 {
    0x0F20u16
}

/// The screen as plain values: the 2000 cells row by row and the cursor.
pub ghost struct ScreenState {
    pub cells: Seq<u16>,
    pub x: int,
    pub y: int,
}

/// The screen moved up one row: the last row blank, the cursor on the last
/// row in the same column.
pub open spec fn scrolled(st: ScreenState) -> ScreenState {
    ScreenState {
        cells: Seq::new(2000, |i: int| if i < 1920 { st.cells[i + 80] } else { blank_cell() }),
        x: st.x,
        y: 24,
    }
}

/// The cursor moved past a written cell: to the next column, to the start
/// of the next row past the last column, scrolling past the last row.
pub open spec fn advanced(st: ScreenState) -> ScreenState {
    let s1 = if st.x + 1 >= 80 {
        ScreenState { cells: st.cells, x: 0, y: st.y + 1 }
    } else {
        ScreenState { cells: st.cells, x: st.x + 1, y: st.y }
    };
    if s1.y >= 25 { scrolled(s1) } else { s1 }
}

/// Byte `b` in colour `color` written at the cursor, which then advances.
pub open spec fn put_char(st: ScreenState, b: u8, color: u8) -> ScreenState {
    advanced(ScreenState { cells: st.cells.update(st.y * 80 + st.x, cell_value(b, color)), x: st.x, y: st.y })
}

/// What printing one byte does: a newline moves to the start of the next
/// row (scrolling past the last one); any other byte is written.
pub open spec fn put_byte(st: ScreenState, b: u8, color: u8) -> ScreenState {
    if b == 10 {
        let s1 = ScreenState { cells: st.cells, x: 0, y: st.y + 1 };
        if s1.y >= 25 { scrolled(s1) } else { s1 }
    } else {
        put_char(st, b, color)
    }
}

/// What printing `bytes` in colour `color` does.
pub open spec fn print_bytes(st: ScreenState, bytes: Seq<u8>, color: u8) -> ScreenState
    decreases bytes.len(),
{
    if bytes.len() == 0 {
        st
    } else {
        put_byte(print_bytes(st, bytes.drop_last(), color), bytes.last(), color)
    }
}

/// The character before the cursor erased: the cursor moves back one cell
/// (to the end of the previous row from column 0) and that cell is blanked;
/// nothing changes at the top left.
pub open spec fn backspaced(st: ScreenState) -> ScreenState {
    if st.x == 0 && st.y == 0 {
        st
    } else {
        let x = if st.x > 0 { st.x - 1 } else { 79 };
        let y = if st.x > 0 { st.y } else { st.y - 1 };
        ScreenState { cells: st.cells.update(y * 80 + x, blank_cell()), x, y }
    }
}

/// The cursor lies on the screen.
pub open spec fn on_screen(st: ScreenState) -> bool {
    &&& st.cells.len() == 2000
    &&& 0 <= st.x < 80
    &&& 0 <= st.y < 25
}

/// The 80x25 text screen: the cells and the cursor.
pub struct Screen {
    cells: [u16; 2000],
    cursor: Cursor,
}

impl Screen {
    /// The screen's contents and cursor.
    pub closed spec fn state(&self) -> ScreenState {
        ScreenState { cells: self.cells@, x: self.cursor.x as int, y: self.cursor.y as int }
    }

    /// A screen of zero cells with the cursor at the top left.
    pub fn new() -> (r: Self)
        ensures
            r.state().cells == Seq::new(2000, |i: int| 0u16),
            r.state().x == 0,
            r.state().y == 0,
    {
        let r = Screen { cells: [0u16; 2000], cursor: Cursor { x: 0, y: 0 } };
        assert(r.state().cells =~= Seq::new(2000, |i: int| 0u16));
        r
    }

    /// The cells, row by row.
    pub fn cells(&self) -> (r: &[u16; 2000])
        ensures
            r@ == self.state().cells,
    {
        &self.cells
    }

    /// The cursor.
    pub fn cursor(&self) -> (r: Cursor)
        ensures
            r.x == self.state().x,
            r.y == self.state().y,
    {
        self.cursor
    }

    /// Put the cursor at column `x`, row `y`.
    pub fn set_cursor(&mut self, x: u16, y: u16)
        requires
            y * 80 + x <= u16::MAX,
        ensures
            final(self).state() == (ScreenState { cells: old(self).state().cells, x: x as int, y: y as int }),
    {
        let _position = y * 80 + x;
        self.cursor.x = x;
        self.cursor.y = y;
    }

    /// Put the cursor at column `x` of its row.
    pub fn set_cursor_x(&mut self, x: u16)
        requires
            old(self).state().y * 80 + x <= u16::MAX,
        ensures
            final(self).state() == (ScreenState { x: x as int, ..old(self).state() }),
    {
        let _position = self.cursor.y * 80 + x;
        self.cursor.x = x;
    }

    /// Put the cursor on row `y` in its column.
    pub fn set_cursor_y(&mut self, y: u16)
        requires
            y * 80 + old(self).state().x <= u16::MAX,
        ensures
            final(self).state() == (ScreenState { y: y as int, ..old(self).state() }),
    {
        let _position = y * 80 + self.cursor.x;
        self.cursor.y = y;
    }

    /// Move the cursor by `dx` columns and `dy` rows, stopping at 0.
    pub fn move_cursor(&mut self, dx: i16, dy: i16)
        requires
            i16::MIN <= (old(self).state().x as i16) + dx <= i16::MAX,
            i16::MIN <= (old(self).state().y as i16) + dy <= i16::MAX,
            ({
                let nx = if (old(self).state().x as i16) + dx > 0 { (old(self).state().x as i16) + dx } else { 0 };
                let ny = if (old(self).state().y as i16) + dy > 0 { (old(self).state().y as i16) + dy } else { 0 };
                ny * 80 + nx <= u16::MAX
            }),
        ensures
            ({
                let nx = if (old(self).state().x as i16) + dx > 0 { (old(self).state().x as i16) + dx } else { 0 };
                let ny = if (old(self).state().y as i16) + dy > 0 { (old(self).state().y as i16) + dy } else { 0 };
                final(self).state() == (ScreenState { cells: old(self).state().cells, x: nx, y: ny })
            }),
    {
        let sx = self.cursor.x as i16 + dx;
        let sy = self.cursor.y as i16 + dy;
        let nx: i16 = if sx > 0 { sx } else { 0 };
        let ny: i16 = if sy > 0 { sy } else { 0 };
        self.set_cursor(nx as u16, ny as u16);
    }
}

impl Screen {
    /// Fill every cell with a space in colour `color` and put the cursor at
    /// the top left.
    pub fn clear(&mut self, color: ColorCode)
        ensures
            final(self).state() == (ScreenState {
                cells: Seq::new(2000, |i: int| cell_value(0x20u8, color.0)),
                x: 0,
                y: 0,
            }),
    {
        let blank: u16 = 0x20 | ((color.0 as u16) << 8);
        let mut i: usize = 0;
        while i < VGA_WIDTH * VGA_HEIGHT
            invariant
                i <= 2000,
                blank == cell_value(0x20u8, color.0),
                forall|j: int| 0 <= j < i ==> self.cells@[j] == blank,
            decreases 2000 - i,
        {
            self.cells[i] = blank;
            i = i + 1;
        }
        self.set_cursor(0, 0);
        assert(self.state().cells =~= Seq::new(2000, |i: int| cell_value(0x20u8, color.0)));
    }

    /// Move every row up by one, blank the last row and put the cursor on
    /// the last row in its column.
    pub fn scroll(&mut self)
        requires
            old(self).state().x + 24 * 80 <= u16::MAX,
        ensures
            final(self).state() == scrolled(old(self).state()),
    {
        let ghost c0 = self.cells@;
        let mut i: usize = 80;
        while i < VGA_WIDTH * VGA_HEIGHT
            invariant
                80 <= i <= 2000,
                self.cells@.len() == 2000,
                self.cursor == old(self).cursor,
                c0 == old(self).cells@,
                forall|j: int| 0 <= j < i - 80 ==> self.cells@[j] == c0[j + 80],
                forall|j: int| i - 80 <= j < 2000 ==> self.cells@[j] == c0[j],
            decreases 2000 - i,
        {
            let v = self.cells[i];
            self.cells[i - 80] = v;
            i = i + 1;
        }
        let blank: u16 = 0x20u16 | ((Color::White.value() as u16) << 8);
        assert(0x20u16 | (15u16 << 8u16) == 0x0F20u16) by (bit_vector);
        let mut x: usize = 0;
        while x < VGA_WIDTH
            invariant
                x <= 80,
                blank == blank_cell(),
                self.cursor == old(self).cursor,
                c0 == old(self).cells@,
                self.cells@.len() == 2000,
                forall|j: int| 0 <= j < 1920 ==> self.cells@[j] == c0[j + 80],
                forall|j: int| 1920 <= j < 1920 + x ==> self.cells@[j] == blank_cell(),
            decreases 80 - x,
        {
            self.cells[1920 + x] = blank;
            x = x + 1;
        }
        let cx = self.cursor.x;
        self.set_cursor(cx, 24);
        assert(self.state().cells =~= scrolled(old(self).state()).cells);
    }

    /// Blank the last row with plain spaces (no colour); the cursor stays.
    pub fn newline(&mut self)
        ensures
            final(self).state() == (ScreenState {
                cells: Seq::new(2000, |i: int| if i >= 1920 { 0x20u16 } else { old(self).state().cells[i] }),
                ..old(self).state()
            }),
    {
        let mut index: usize = VGA_WIDTH * (VGA_HEIGHT - 1);
        while index < VGA_WIDTH * VGA_HEIGHT
            invariant
                1920 <= index <= 2000,
                self.cursor == old(self).cursor,
                forall|j: int| 0 <= j < 1920 ==> self.cells@[j] == old(self).cells@[j],
                forall|j: int| 1920 <= j < index ==> self.cells@[j] == 0x20u16,
                forall|j: int| index <= j < 2000 ==> self.cells@[j] == old(self).cells@[j],
            decreases 2000 - index,
        {
            self.cells[index] = 0x20;
            index = index + 1;
        }
        assert(self.state().cells =~= Seq::new(2000, |i: int| if i >= 1920 { 0x20u16 } else { old(self).state().cells[i] }));
    }

    /// Move the cursor past a cell just written: next column, next row past
    /// the last column, scrolling past the last row.
    fn advance(&mut self)
        requires
            on_screen(old(self).state()),
        ensures
            final(self).state() == advanced(old(self).state()),
            on_screen(final(self).state()),
    {
        self.move_cursor(1, 0);
        if self.cursor.x >= VGA_WIDTH as u16 {
            self.set_cursor_x(0);
            self.move_cursor(0, 1);
        }
        if self.cursor.y >= VGA_HEIGHT as u16 {
            self.scroll();
        }
    }

    /// Write byte `b` in colour `color` at the cursor and advance.
    fn put_char_byte(&mut self, b: u8, color: ColorCode)
        requires
            on_screen(old(self).state()),
        ensures
            final(self).state() == put_char(old(self).state(), b, color.0),
            on_screen(final(self).state()),
    {
        let index = (self.cursor.y * 80 + self.cursor.x) as usize;
        self.cells[index] = (b as u16) | ((color.0 as u16) << 8);
        self.advance();
    }

    /// Write the character `c` (its low byte) in colour `color` at the cursor
    /// and advance; a newline is written like any other character.
    pub fn print_char(&mut self, c: char, color: ColorCode)
        requires
            on_screen(old(self).state()),
        ensures
            final(self).state() == put_char(old(self).state(), (c as u32) as u8, color.0),
            on_screen(final(self).state()),
    {
        let byte = (c as u32) as u8;
        self.put_char_byte(byte, color);
    }

    /// Print the bytes of `s` in colour `color`: a newline byte moves to the
    /// start of the next row, any other byte is written at the cursor.
    pub fn print(&mut self, s: &str, color: ColorCode)
        requires
            on_screen(old(self).state()),
        ensures
            final(self).state() == print_bytes(old(self).state(), vstd::utf8::encode_utf8(s@), color.0),
            on_screen(final(self).state()),
    {
        let bytes = s.as_bytes();
        self.print_bytes(bytes, color);
    }

    /// Print the bytes `bytes` in colour `color`, as `print` does.
    pub fn print_bytes(&mut self, bytes: &[u8], color: ColorCode)
        requires
            on_screen(old(self).state()),
        ensures
            final(self).state() == print_bytes(old(self).state(), bytes@, color.0),
            on_screen(final(self).state()),
    {
        let mut i: usize = 0;
        while i < bytes.len()
            invariant
                i <= bytes@.len(),
                on_screen(self.state()),
                self.state() == print_bytes(old(self).state(), bytes@.take(i as int), color.0),
            decreases bytes@.len() - i,
        {
            let byte = bytes[i];
            proof {
                assert(bytes@.take(i as int + 1).drop_last() =~= bytes@.take(i as int));
            }
            if byte == 10 {
                self.set_cursor_x(0);
                self.move_cursor(0, 1);
                if self.cursor.y >= VGA_HEIGHT as u16 {
                    self.scroll();
                }
            } else {
                self.put_char_byte(byte, color);
            }
            i = i + 1;
        }
        proof {
            assert(bytes@.take(bytes@.len() as int) =~= bytes@);
        }
    }

    /// Erase the character before the cursor: move back one cell (to the end
    /// of the previous row from column 0) and blank it; nothing at the top
    /// left.
    pub fn backspace(&mut self)
        requires
            on_screen(old(self).state()),
        ensures
            on_screen(final(self).state()),
            final(self).state() == backspaced(old(self).state()),
    {
        if self.cursor.x == 0 && self.cursor.y == 0 {
            return;
        }
        if self.cursor.x > 0 {
            self.move_cursor(-1, 0);
        } else {
            self.set_cursor_x((VGA_WIDTH - 1) as u16);
            self.move_cursor(0, -1);
        }
        let blank = 0x20u16 | ((Color::White.value() as u16) << 8);
        assert(0x20u16 | (15u16 << 8u16) == 0x0F20u16) by (bit_vector);
        let index = (self.cursor.y * 80 + self.cursor.x) as usize;
        self.cells[index] = blank;
    }
}


/// The sixteen colours have the numbers of the VGA text palette, in its
/// order (black, blue, green, cyan, red, magenta, brown, light gray, dark
/// gray, light blue, light green, light cyan, light red, pink, yellow,
/// white), so no two colours share a number.
pub proof fn law_vga_palette()
    ensures
        ({
            let palette = seq![
                Color::Black,
                Color::Blue,
                Color::Green,
                Color::Cyan,
                Color::Red,
                Color::Magenta,
                Color::Brown,
                Color::LightGray,
                Color::DarkGray,
                Color::LightBlue,
                Color::LightGreen,
                Color::LightCyan,
                Color::LightRed,
                Color::Pink,
                Color::Yellow,
                Color::White,
            ];
            forall|i: int| 0 <= i < 16 ==> color_value(#[trigger] palette[i]) == i
        }),
        forall|a: Color, b: Color| color_value(a) == color_value(b) ==> a == b,
        forall|c: Color| color_value(c) < 16,
{
    let palette = seq![
        Color::Black,
        Color::Blue,
        Color::Green,
        Color::Cyan,
        Color::Red,
        Color::Magenta,
        Color::Brown,
        Color::LightGray,
        Color::DarkGray,
        Color::LightBlue,
        Color::LightGreen,
        Color::LightCyan,
        Color::LightRed,
        Color::Pink,
        Color::Yellow,
        Color::White,
    ];
    assert forall|i: int| 0 <= i < 16 implies color_value(#[trigger] palette[i]) == i by {
        assert(i == 0 || i == 1 || i == 2 || i == 3 || i == 4 || i == 5 || i == 6 || i == 7 || i == 8 || i == 9
            || i == 10 || i == 11 || i == 12 || i == 13 || i == 14 || i == 15);
    }
}

} // verus!
