use lib::interrupts::utils::are_interrupts_enabled;
use lib::paging::enable::{cr0_with_paging, cr0_without_paging, is_paging_enabled, is_valid_cr3};
use lib::vga::text_mod::cursor::{
    big_cursor_writes, cursor_position_writes, cursor_shape_writes, cursor_start_blinking, cursor_start_disabled,
    cursor_start_with_color, cursor_start_with_rate, small_cursor_writes, Cursor,
};

#[test]
fn cursor_shapes() {
    assert_eq!(big_cursor_writes(), vec![(0x3D4, 0x0A), (0x3D5, 0x00), (0x3D4, 0x0B), (0x3D5, 0x0F)]);
    assert_eq!(small_cursor_writes(), vec![(0x3D4, 0x0A), (0x3D5, 0x20), (0x3D4, 0x0B), (0x3D5, 0x07)]);
    assert_eq!(cursor_shape_writes(3, 9), vec![(0x3D4, 0x0A), (0x3D5, 3), (0x3D4, 0x0B), (0x3D5, 9)]);
}

#[test]
fn cursor_position_is_sent_high_byte_first() {
    let c = Cursor { x: 3, y: 4 };
    assert_eq!(c.position(), 323);
    assert_eq!(cursor_position_writes(323), vec![(0x3D4, 0x0E), (0x3D5, 0x01), (0x3D4, 0x0F), (0x3D5, 0x43)]);
    assert_eq!(cursor_position_writes(1999), vec![(0x3D4, 0x0E), (0x3D5, 0x07), (0x3D4, 0x0F), (0x3D5, 0xCF)]);
}

#[test]
fn cursor_start_register_values() {
    assert_eq!(cursor_start_with_color(0x0E, 0x10), 0x1E);
    assert_eq!(cursor_start_blinking(0x0F, true), 0x0E);
    assert_eq!(cursor_start_blinking(0x0E, false), 0x0F);
    assert_eq!(cursor_start_with_rate(0xFF, 0x0A), 0xFA);
    assert_eq!(cursor_start_disabled(0x0E), 0x2E);
}

#[test]
fn paging_bit_of_cr0() {
    assert!(!is_paging_enabled(0x0000_0011));
    assert!(is_paging_enabled(0x8000_0011));
    assert_eq!(cr0_with_paging(0x0000_0011), 0x8000_0011);
    assert_eq!(cr0_without_paging(0x8000_0011), 0x0000_0011);
    assert_eq!(cr0_without_paging(0x11), 0x11);
    assert!(is_valid_cr3(0x0010_0000));
    assert!(!is_valid_cr3(0x0010_0010));
}

#[test]
fn interrupt_flag_of_eflags() {
    assert!(are_interrupts_enabled(0x0000_0202));
    assert!(!are_interrupts_enabled(0x0000_0002));
}
