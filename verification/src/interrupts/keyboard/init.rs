//! What a keyboard interrupt does with the scancode it read.
use vstd::prelude::*;
use crate::vga::text_mod::out::{Screen, Color, ColorCode};
use crate::shell::{Shell, ShellAction};
use crate::interrupts::keyboard::caracter_map::lower_character;

verus! {

/// Scancode of Enter.
pub const SCANCODE_ENTER: u8 = 0x1C;

/// Scancode of Backspace.
pub const SCANCODE_BACKSPACE: u8 = 0x0E;

/// The character a scancode feeds to the shell: `None` for releases and keys
/// without a character.
pub open spec fn key_char(scancode: u8) -> Option<char> {
    let code = scancode & 0x7Fu8;
    if scancode & 0x80u8 != 0 {
        None
    } else if code == SCANCODE_ENTER {
        Some('\n')
    } else if code == SCANCODE_BACKSPACE {
        Some('\x08')
    } else {
        crate::interrupts::keyboard::caracter_map::lower_map(code)
    }
}

/// Handle a scancode read from the keyboard: on a key press, Enter and
/// Backspace go to the shell (Backspace also erases the character on screen
/// when the line is not empty), and a key with a character echoes it and
/// feeds it to the shell. Releases are ignored. The caller sends the end of
/// interrupt.
pub fn handle_scancode(shell: &mut Shell, screen: &mut Screen, scancode: u8) -> (r: ShellAction)
    requires
        old(shell).wf(),
        crate::vga::text_mod::out::on_screen(old(screen).state()),
        key_char(scancode) == Some('\n') ==> !crate::shell::command_faults(
            crate::shell::line_command(old(shell).line()),
        ),
    ensures
        final(shell).wf(),
        crate::vga::text_mod::out::on_screen(final(screen).state()),
        key_char(scancode) is None ==> final(shell).line() == old(shell).line()
            && final(screen).state() == old(screen).state() && r is Done,
        key_char(scancode) is Some && key_char(scancode)->0 != '\n' && key_char(scancode)->0 != '\x08' ==> {
            let c = key_char(scancode)->0;
            &&& final(shell).line() == if old(shell).len() < crate::shell::MAX_LINE_LEN - 1 {
                old(shell).line().push((c as u32) as u8)
            } else {
                old(shell).line()
            }
            &&& final(screen).state() == crate::vga::text_mod::out::put_char(
                old(screen).state(),
                (c as u32) as u8,
                crate::shell::commands::on_black(Color::White),
            )
            &&& r is Done
        },
        key_char(scancode) == Some('\x08') ==> {
            &&& final(shell).line() == if old(shell).len() > 0 {
                old(shell).line().drop_last()
            } else {
                old(shell).line()
            }
            &&& r is Done
            &&& final(screen).state() == if old(shell).len() > 0 {
                crate::vga::text_mod::out::backspaced(old(screen).state())
            } else {
                old(screen).state()
            }
        },
        key_char(scancode) == Some('\n') ==> {
            let cv = crate::shell::line_command(old(shell).line());
            let st1 = crate::shell::commands::print_lines(
                old(screen).state(),
                seq![(crate::shell::commands::enc("\n"@), crate::shell::commands::on_black(Color::White))],
            );
            &&& final(shell).line() == Seq::<u8>::empty()
            &&& if crate::shell::runs_inline(cv) {
                &&& final(screen).state() == crate::shell::commands::print_lines(
                    crate::shell::run_inline(st1, cv),
                    crate::shell::prompt_output(),
                )
                &&& r is Done
            } else {
                &&& final(screen).state() == st1
                &&& r == crate::shell::action_for(cv)
            }
        },
{
    let pressed = scancode & 0x80 == 0;
    let code = scancode & 0x7F;
    if pressed && code < 128 {
        if code == SCANCODE_ENTER {
            return shell.on_char(screen, '\n');
        } else if code == SCANCODE_BACKSPACE {
            if shell.pos() > 0 {
                screen.backspace();
            }
            return shell.on_char(screen, '\x08');
        } else {
            match lower_character(code) {
                Some(ch) => {
                    screen.print_char(ch, ColorCode::new(Color::White, Color::Black));
                    return shell.on_char(screen, ch);
                },
                None => {},
            }
        }
    }
    ShellAction::Done
}

/// The character a scancode feeds to the shell (see `key_char`).
pub fn scancode_char(scancode: u8) -> (r: Option<char>)
    ensures
        r == key_char(scancode),
{
    let code = scancode & 0x7F;
    if scancode & 0x80 != 0 {
        None
    } else if code == SCANCODE_ENTER {
        Some('\n')
    } else if code == SCANCODE_BACKSPACE {
        Some('\x08')
    } else {
        lower_character(code)
    }
}

} // verus!
