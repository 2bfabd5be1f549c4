use lib::vga::text_mod::out::{Color, ColorCode, Screen};

fn row(s: &Screen, y: usize) -> String {
    let cells = s.cells();
    let text: String = (0..80).map(|x| (cells[y * 80 + x] & 0xFF) as u8 as char).collect();
    text.trim_end_matches(|c| c == '\0' || c == ' ').to_string()
}

fn white() -> ColorCode {
    ColorCode::new(Color::White, Color::Black)
}

#[test]
fn color_code_packs_background_over_foreground() {
    assert_eq!(ColorCode::new(Color::White, Color::Black).0, 0x0F);
    assert_eq!(ColorCode::new(Color::Red, Color::Blue).0, 0x14);
    assert_eq!(ColorCode::new(Color::Yellow, Color::LightGray).0, 0x7E);
    assert_eq!(Color::LightCyan.value(), 11);
}

#[test]
fn print_writes_cells_with_the_colour() {
    let mut s = Screen::new();
    s.print("Hi", ColorCode::new(Color::LightGreen, Color::Black));
    assert_eq!(s.cells()[0], 0x0A48);
    assert_eq!(s.cells()[1], 0x0A69);
    assert_eq!((s.cursor().x, s.cursor().y), (2, 0));
    assert_eq!(s.cursor().position(), 2);
}

#[test]
fn newline_byte_moves_to_the_next_row() {
    let mut s = Screen::new();
    s.print("ab\ncd", white());
    assert_eq!(row(&s, 0), "ab");
    assert_eq!(row(&s, 1), "cd");
    assert_eq!((s.cursor().x, s.cursor().y), (2, 1));
}

#[test]
fn print_wraps_at_the_end_of_a_row() {
    let mut s = Screen::new();
    let line: String = std::iter::repeat('x').take(81).collect();
    s.print(&line, white());
    assert_eq!(row(&s, 0).len(), 80);
    assert_eq!(row(&s, 1), "x");
    assert_eq!((s.cursor().x, s.cursor().y), (1, 1));
}

#[test]
fn printing_past_the_last_row_scrolls() {
    let mut s = Screen::new();
    for i in 0..25 {
        s.print(&format!("line {}\n", i), white());
    }
    assert_eq!(row(&s, 0), "line 1");
    assert_eq!(row(&s, 23), "line 24");
    assert_eq!(row(&s, 24), "");
    assert_eq!(s.cells()[24 * 80], 0x0F20);
    assert_eq!((s.cursor().x, s.cursor().y), (0, 24));
}

#[test]
fn scroll_moves_rows_up() {
    let mut s = Screen::new();
    s.print("top\nsecond", white());
    s.scroll();
    assert_eq!(row(&s, 0), "second");
    assert_eq!(s.cursor().y, 24);
    assert_eq!(s.cursor().x, 6);
}

#[test]
fn clear_blanks_everything() {
    let mut s = Screen::new();
    s.print("hello", white());
    s.clear(ColorCode::new(Color::White, Color::Blue));
    assert!(s.cells().iter().all(|&c| c == 0x1F20));
    assert_eq!((s.cursor().x, s.cursor().y), (0, 0));
}

#[test]
fn backspace_erases_the_previous_cell() {
    let mut s = Screen::new();
    s.print("ab", white());
    s.backspace();
    assert_eq!(row(&s, 0), "a");
    assert_eq!(s.cursor().x, 1);
}

#[test]
fn backspace_at_column_zero_goes_to_the_previous_row() {
    let mut s = Screen::new();
    s.print("ab\n", white());
    s.backspace();
    assert_eq!((s.cursor().x, s.cursor().y), (79, 0));
    assert_eq!(s.cells()[79], 0x0F20);
}

#[test]
fn backspace_at_the_top_left_does_nothing() {
    let mut s = Screen::new();
    s.backspace();
    assert_eq!((s.cursor().x, s.cursor().y), (0, 0));
    assert_eq!(s.cells()[0], 0);
}

#[test]
fn cursor_moves_stop_at_zero() {
    let mut s = Screen::new();
    s.set_cursor(10, 5);
    s.move_cursor(-20, 2);
    assert_eq!((s.cursor().x, s.cursor().y), (0, 7));
    s.set_cursor_x(3);
    s.set_cursor_y(4);
    assert_eq!(s.cursor().position(), 4 * 80 + 3);
}

#[test]
fn print_char_writes_newline_as_a_character() {
    let mut s = Screen::new();
    s.print_char('\n', white());
    assert_eq!(s.cells()[0], 0x0F0A);
    assert_eq!(s.cursor().x, 1);
}

#[test]
fn newline_blanks_the_last_row() {
    let mut s = Screen::new();
    s.set_cursor(0, 24);
    s.print("zz", white());
    s.newline();
    assert_eq!(s.cells()[24 * 80], 0x20);
    assert_eq!(s.cursor().x, 2);
}
