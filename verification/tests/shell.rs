use lib::interrupts::keyboard::caracter_map::{lower_character, upper_character};
use lib::interrupts::keyboard::init::{handle_scancode, SCANCODE_BACKSPACE, SCANCODE_ENTER};
use lib::shell::commands::{
    calc_would_fault, cmd_calc, cmd_clear, cmd_echo, cmd_halt, cmd_help, cmd_reboot, cmd_stack, cmd_userstack,
    dec_digits, hex_digits, parse_and_eval, parse_usize, print_dec, print_hex,
};
use lib::shell::{is_math_expr, Shell, ShellAction};
use lib::vga::text_mod::out::Screen;

fn row(s: &Screen, y: usize) -> String {
    let cells = s.cells();
    let text: String = (0..80).map(|x| (cells[y * 80 + x] & 0xFF) as u8 as char).collect();
    text.trim_end_matches(|c| c == '\0' || c == ' ').to_string()
}

fn type_line(shell: &mut Shell, screen: &mut Screen, line: &str) -> ShellAction {
    for c in line.chars() {
        assert_eq!(shell.on_char(screen, c), ShellAction::Done);
    }
    shell.on_char(screen, '\n')
}

#[test]
fn parse_and_eval_computes_the_four_operations() {
    assert_eq!(parse_and_eval(b"10+5"), Some(15));
    assert_eq!(parse_and_eval(b"100-50"), Some(50));
    assert_eq!(parse_and_eval(b"7*3"), Some(21));
    assert_eq!(parse_and_eval(b"20/4"), Some(5));
    assert_eq!(parse_and_eval(b"7/2"), Some(3));
}

#[test]
fn subtraction_saturates_at_zero() {
    assert_eq!(parse_and_eval(b"5-9"), Some(0));
}

#[test]
fn parse_and_eval_rejects_malformed_input() {
    assert_eq!(parse_and_eval(b"+5"), None);
    assert_eq!(parse_and_eval(b"abc"), None);
    assert_eq!(parse_and_eval(b"5+"), None);
    assert_eq!(parse_and_eval(b"1+2+3"), None);
    assert_eq!(parse_and_eval(b"1 + 2"), None);
    assert_eq!(parse_and_eval(b""), None);
}

#[test]
fn parse_usize_reads_decimal_numbers() {
    assert_eq!(parse_usize(b"0"), Some(0));
    assert_eq!(parse_usize(b"12345"), Some(12345));
    assert_eq!(parse_usize(b"+7"), Some(7));
    assert_eq!(parse_usize(b""), None);
    assert_eq!(parse_usize(b"+"), None);
    assert_eq!(parse_usize(b"1a"), None);
    assert_eq!(parse_usize(b"-1"), None);
}

#[test]
fn division_by_zero_is_detected_before_it_faults() {
    assert!(calc_would_fault(b"5/0"));
    assert!(!calc_would_fault(b"5/1"));
    assert!(!calc_would_fault(b"5+0"));
}

#[test]
fn math_expressions_need_an_operator_after_the_first_byte() {
    assert!(is_math_expr("1+1"));
    assert!(is_math_expr("10/2"));
    assert!(!is_math_expr("-5"));
    assert!(!is_math_expr("help"));
    assert!(!is_math_expr(""));
}

#[test]
fn number_formatting() {
    assert_eq!(dec_digits(0), b"0".to_vec());
    assert_eq!(dec_digits(4096), b"4096".to_vec());
    assert_eq!(hex_digits(0xDEAD_BEEF), b"DEADBEEF".to_vec());
    assert_eq!(hex_digits(0x1A), b"0000001A".to_vec());
    let mut s = Screen::new();
    print_hex(&mut s, 0xB8000);
    print_dec(&mut s, 42);
    assert_eq!(row(&s, 0), "0x000B800042");
}

#[test]
fn calc_prints_the_result() {
    let mut s = Screen::new();
    cmd_calc(&mut s, " 10+5 ");
    assert_eq!(row(&s, 0), "10+5 = 15");
}

#[test]
fn calc_reports_an_invalid_expression() {
    let mut s = Screen::new();
    cmd_calc(&mut s, "ten+5");
    assert_eq!(row(&s, 0), "Invalid expression: ten+5");
    assert_eq!(row(&s, 1), "Expected format: <number><op><number>");
    assert_eq!(row(&s, 2), "Example: 10+5, 20/4, 7*3, 100-50");
}

#[test]
fn calc_without_an_expression_prints_usage() {
    let mut s = Screen::new();
    cmd_calc(&mut s, "   ");
    assert_eq!(row(&s, 0), "Usage: <number><op><number>  e.g. 1+1, 10/2, 5*3");
    assert_eq!(row(&s, 1), "Supports: +  -  *  /");
    assert_eq!(row(&s, 2), "Try '5/0' to trigger a division by zero error!");
}

#[test]
fn echo_prints_its_arguments() {
    let mut s = Screen::new();
    cmd_echo(&mut s, "hello world");
    cmd_echo(&mut s, "");
    cmd_echo(&mut s, "x");
    assert_eq!(row(&s, 0), "hello world");
    assert_eq!(row(&s, 1), "");
    assert_eq!(row(&s, 2), "x");
}

#[test]
fn help_lists_the_commands() {
    let mut s = Screen::new();
    cmd_help(&mut s);
    assert_eq!(row(&s, 0), "Available commands:");
    assert_eq!(row(&s, 1), "  help       - Show this help message");
    assert_eq!(row(&s, 9), "  paging     - Show paging info and run live tests");
    assert_eq!(row(&s, 11), "Math expressions (no space needed):");
    assert_eq!(row(&s, 16), "  5/0        - Division by zero (triggers CPU exception 0!)");
}

#[test]
fn clear_blanks_the_screen() {
    let mut s = Screen::new();
    s.print("junk", lib::vga::text_mod::out::ColorCode::new(lib::vga::text_mod::out::Color::White, lib::vga::text_mod::out::Color::Black));
    cmd_clear(&mut s);
    assert_eq!(row(&s, 0), "");
    assert_eq!(s.cells()[0], 0x0F20);
}

#[test]
fn stack_reports_bottom_top_and_size() {
    let mut s = Screen::new();
    cmd_stack(&mut s, 0x0013_4000, 0x0013_0000);
    assert_eq!(row(&s, 0), "Kernel Stack:");
    assert_eq!(row(&s, 1), "  Bottom: 0x0x00130000");
    assert_eq!(row(&s, 2), "  Top:    0x0x00134000");
    assert_eq!(row(&s, 3), "  Size:   16384 bytes (16 KB)");
    cmd_userstack(&mut s, 0x2000, 0x1000);
    assert_eq!(row(&s, 4), "User Stack:");
    assert_eq!(row(&s, 7), "  Size:   4096 bytes (4 KB)");
}

#[test]
fn reboot_and_halt_announce_themselves() {
    let mut s = Screen::new();
    cmd_reboot(&mut s);
    cmd_halt(&mut s);
    assert_eq!(row(&s, 0), "Rebooting...");
    assert_eq!(row(&s, 1), "Halting CPU. Press reset to continue.");
}

#[test]
fn shell_runs_calc_and_prints_a_prompt() {
    let mut sh = Shell::new();
    let mut s = Screen::new();
    sh.prompt(&mut s);
    assert_eq!(type_line(&mut sh, &mut s, "calc 10+5"), ShellAction::Done);
    assert_eq!(row(&s, 0), ">");
    assert_eq!(row(&s, 1), "10+5 = 15");
    assert_eq!(row(&s, 2), ">");
    assert_eq!(sh.pos(), 0);
}

#[test]
fn shell_evaluates_a_bare_expression() {
    let mut sh = Shell::new();
    let mut s = Screen::new();
    type_line(&mut sh, &mut s, "3*4");
    assert_eq!(row(&s, 1), "3*4 = 12");
}

#[test]
fn shell_joins_a_spaced_expression() {
    let mut sh = Shell::new();
    let mut s = Screen::new();
    type_line(&mut sh, &mut s, "1+ 2");
    assert_eq!(row(&s, 1), "1+2 = 3");
}

#[test]
fn shell_reports_unknown_commands() {
    let mut sh = Shell::new();
    let mut s = Screen::new();
    type_line(&mut sh, &mut s, "frobnicate now");
    assert_eq!(row(&s, 1), "Unknown command: frobnicate");
    assert_eq!(row(&s, 2), "Type 'help' for available commands.");
    assert_eq!(row(&s, 3), ">");
}

#[test]
fn shell_hands_back_machine_commands() {
    let mut sh = Shell::new();
    let mut s = Screen::new();
    assert_eq!(type_line(&mut sh, &mut s, "stack"), ShellAction::Stack);
    assert_eq!(type_line(&mut sh, &mut s, "userstack"), ShellAction::UserStack);
    assert_eq!(type_line(&mut sh, &mut s, "paging"), ShellAction::Paging);
    assert_eq!(type_line(&mut sh, &mut s, "reboot"), ShellAction::Reboot);
    assert_eq!(type_line(&mut sh, &mut s, "halt"), ShellAction::Halt);
}

#[test]
fn empty_line_just_prompts_again() {
    let mut sh = Shell::new();
    let mut s = Screen::new();
    assert_eq!(type_line(&mut sh, &mut s, "   "), ShellAction::Done);
    assert_eq!(row(&s, 0), "");
    assert_eq!(row(&s, 1), ">");
}

#[test]
fn backspace_drops_the_last_character() {
    let mut sh = Shell::new();
    let mut s = Screen::new();
    for c in "echo hix".chars() {
        sh.on_char(&mut s, c);
    }
    sh.on_char(&mut s, '\x08');
    assert_eq!(sh.pos(), 7);
    sh.on_char(&mut s, '\n');
    assert_eq!(row(&s, 1), "hi");
}

#[test]
fn the_line_holds_at_most_79_characters() {
    let mut sh = Shell::new();
    let mut s = Screen::new();
    for _ in 0..100 {
        sh.on_char(&mut s, 'a');
    }
    assert_eq!(sh.pos(), 79);
}

#[test]
fn enter_with_division_by_zero_is_flagged() {
    let mut sh = Shell::new();
    let mut s = Screen::new();
    for c in "calc 5/0".chars() {
        sh.on_char(&mut s, c);
    }
    assert!(sh.enter_would_fault());
    let mut sh2 = Shell::new();
    for c in "5/1".chars() {
        sh2.on_char(&mut s, c);
    }
    assert!(!sh2.enter_would_fault());
}

#[test]
fn keyboard_maps_scancodes_to_characters() {
    assert_eq!(lower_character(0x1E), Some('a'));
    assert_eq!(upper_character(0x1E), Some('A'));
    assert_eq!(lower_character(0x02), Some('1'));
    assert_eq!(lower_character(0x39), Some(' '));
    assert_eq!(lower_character(0x01), None);
}

#[test]
fn scancodes_echo_and_feed_the_shell() {
    let mut sh = Shell::new();
    let mut s = Screen::new();
    // "h", "i", a release, Enter.
    for code in [0x23u8, 0x17, 0x97] {
        assert_eq!(handle_scancode(&mut sh, &mut s, code), ShellAction::Done);
    }
    assert_eq!(row(&s, 0), "hi");
    assert_eq!(sh.pos(), 2);
    handle_scancode(&mut sh, &mut s, SCANCODE_BACKSPACE);
    assert_eq!(row(&s, 0), "h");
    assert_eq!(sh.pos(), 1);
    handle_scancode(&mut sh, &mut s, SCANCODE_ENTER);
    assert_eq!(row(&s, 1), "Unknown command: h");
}

#[test]
fn backspace_on_an_empty_line_changes_nothing() {
    let mut sh = Shell::new();
    let mut s = Screen::new();
    assert_eq!(sh.pos(), 0);
    sh.on_char(&mut s, '\x08');
    sh.on_char(&mut s, '\x7f');
    assert_eq!(sh.pos(), 0);
    sh.on_char(&mut s, 'x');
    assert_eq!(sh.pos(), 1);
    sh.on_char(&mut s, '\x08');
    assert_eq!(sh.pos(), 0);
    assert_eq!(row(&s, 0), "");
}
