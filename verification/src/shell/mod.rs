//! The interactive shell: line editing, command parsing and dispatch.
use vstd::prelude::*;
use crate::vga::text_mod::out::{Screen, Color, ColorCode};
use crate::shell::text::{str_from_utf8, str_trim};

pub mod commands;
pub mod text;

verus! {

/// Longest line the shell keeps (one byte stays free).
pub const MAX_LINE_LEN: usize = 80;

/// `s` cut to its first `n` elements.
pub open spec fn trunc(s: Seq<u8>, n: int) -> Seq<u8> {
    if s.len() > n { s.take(n) } else { s }
}

/// Whether `b` holds a space.
pub open spec fn has_space(b: Seq<u8>) -> bool {
    exists|k: int| 0 <= k < b.len() && b[k] == 32
}

/// `k` is the first space of `b`.
pub open spec fn first_space(b: Seq<u8>, k: int) -> bool {
    &&& 0 <= k < b.len()
    &&& b[k] == 32
    &&& forall|j: int| 0 <= j < k ==> #[trigger] b[j] != 32
}

/// The command word of a line: the bytes before its first space (all of
/// them when there is none), at most 16.
pub open spec fn cmd_part(b: Seq<u8>) -> Seq<u8> {
    if has_space(b) {
        trunc(b.take(choose|k: int| first_space(b, k)), 16)
    } else {
        trunc(b, 16)
    }
}

/// The arguments of a line: the bytes after its first space, at most 64.
pub open spec fn args_part(b: Seq<u8>) -> Seq<u8> {
    if has_space(b) {
        trunc(b.skip((choose|k: int| first_space(b, k)) + 1), 64)
    } else {
        Seq::empty()
    }
}

/// Whether a word looks like arithmetic: it has `+ - * /` past its first byte.
pub open spec fn looks_like_math(b: Seq<u8>) -> bool {
    crate::shell::commands::has_op(b)
}

/// A parsed command line.
pub enum Command {
    /// Empty line or empty command word.
    Nothing,
    Help,
    Stack,
    UserStack,
    Reboot,
    Halt,
    Clear,
    /// `echo` and its arguments.
    Echo(String),
    /// An expression to evaluate: the arguments of `calc`, or a command word
    /// that looks like arithmetic with the arguments appended.
    Calc(String),
    Paging,
    /// A command word that is none of the above.
    Unknown(String),
}

/// A parsed command line as plain values.
pub ghost enum CommandView {
    Nothing,
    Help,
    Stack,
    UserStack,
    Reboot,
    Halt,
    Clear,
    Echo(Seq<char>),
    Calc(Seq<char>),
    Paging,
    Unknown(Seq<char>),
}

impl Command {
    /// The command as plain values.
    pub open spec fn view(&self) -> CommandView {
        match self {
            Command::Nothing => CommandView::Nothing,
            Command::Help => CommandView::Help,
            Command::Stack => CommandView::Stack,
            Command::UserStack => CommandView::UserStack,
            Command::Reboot => CommandView::Reboot,
            Command::Halt => CommandView::Halt,
            Command::Clear => CommandView::Clear,
            Command::Echo(s) => CommandView::Echo(s@),
            Command::Calc(s) => CommandView::Calc(s@),
            Command::Paging => CommandView::Paging,
            Command::Unknown(s) => CommandView::Unknown(s@),
        }
    }
}

/// The command for command word `cmd` and arguments `args`.
pub open spec fn command_for(cmd: Seq<char>, args: Seq<char>) -> CommandView {
    let c = crate::shell::commands::enc(cmd);
    if c == crate::shell::commands::enc("help"@) {
        CommandView::Help
    } else if c == crate::shell::commands::enc("stack"@) {
        CommandView::Stack
    } else if c == crate::shell::commands::enc("userstack"@) {
        CommandView::UserStack
    } else if c == crate::shell::commands::enc("reboot"@) {
        CommandView::Reboot
    } else if c == crate::shell::commands::enc("halt"@) {
        CommandView::Halt
    } else if c == crate::shell::commands::enc("clear"@) {
        CommandView::Clear
    } else if c == crate::shell::commands::enc("echo"@) {
        CommandView::Echo(args)
    } else if c == crate::shell::commands::enc("calc"@) {
        CommandView::Calc(args)
    } else if c == crate::shell::commands::enc("paging"@) {
        CommandView::Paging
    } else if c.len() == 0 {
        CommandView::Nothing
    } else if looks_like_math(c) {
        let full = trunc(c + crate::shell::commands::enc(args), 80);
        if vstd::utf8::valid_utf8(full) {
            CommandView::Calc(vstd::utf8::decode_utf8(full))
        } else {
            CommandView::Unknown(cmd)
        }
    } else {
        CommandView::Unknown(cmd)
    }
}

/// The command a typed line `line` (its raw bytes) stands for.
pub open spec fn line_command(line: Seq<u8>) -> CommandView {
    let t = crate::shell::text::trim(crate::shell::text::text_or_empty(line));
    if t.len() == 0 {
        CommandView::Nothing
    } else {
        let b = crate::shell::commands::enc(t);
        command_for(
            crate::shell::text::text_or_empty(cmd_part(b)),
            crate::shell::text::text_or_empty(args_part(b)),
        )
    }
}

/// Whether two byte strings are equal.
fn bytes_eq(a: &[u8], b: &[u8]) -> (r: bool)
    ensures
        r == (a@ == b@),
{
    if a.len() != b.len() {
        return false;
    }
    let mut i: usize = 0;
    while i < a.len()
        invariant
            a@.len() == b@.len(),
            i <= a@.len(),
            forall|j: int| 0 <= j < i ==> a@[j] == b@[j],
        decreases a@.len() - i,
    {
        if a[i] != b[i] {
            return false;
        }
        i = i + 1;
    }
    assert(a@ =~= b@);
    true
}

/// Whether `s` looks like arithmetic: it has `+ - * /` past its first byte.
pub fn is_math_expr(s: &str) -> (r: bool)
    ensures
        r == looks_like_math(crate::shell::commands::enc(s@)),
{
    let bytes = s.as_bytes();
    let mut i: usize = 1;
    while i < bytes.len()
        invariant
            1 <= i,
            bytes@ == crate::shell::commands::enc(s@),
            forall|j: int| 1 <= j < i && j < bytes@.len() ==> !crate::shell::commands::is_op(#[trigger] bytes@[j]),
        decreases bytes@.len() - i,
    {
        let b = bytes[i];
        if b == 43 || b == 45 || b == 42 || b == 47 {
            return true;
        }
        i = i + 1;
    }
    false
}

/// The command for command word `cmd` and arguments `args`.
fn execute(cmd: &str, args: &str) -> (r: Command)
    ensures
        r@ == command_for(cmd@, args@),
{
    let c = cmd.as_bytes();
    if bytes_eq(c, "help".as_bytes()) {
        Command::Help
    } else if bytes_eq(c, "stack".as_bytes()) {
        Command::Stack
    } else if bytes_eq(c, "userstack".as_bytes()) {
        Command::UserStack
    } else if bytes_eq(c, "reboot".as_bytes()) {
        Command::Reboot
    } else if bytes_eq(c, "halt".as_bytes()) {
        Command::Halt
    } else if bytes_eq(c, "clear".as_bytes()) {
        Command::Clear
    } else if bytes_eq(c, "echo".as_bytes()) {
        Command::Echo(args.to_owned())
    } else if bytes_eq(c, "calc".as_bytes()) {
        Command::Calc(args.to_owned())
    } else if bytes_eq(c, "paging".as_bytes()) {
        Command::Paging
    } else if c.len() == 0 {
        Command::Nothing
    } else if is_math_expr(cmd) {
        let mut full: Vec<u8> = Vec::new();
        let a = args.as_bytes();
        let mut i: usize = 0;
        while i < c.len()
            invariant
                i <= c@.len(),
                full@ == trunc(c@.take(i as int), 80),
            decreases c@.len() - i,
        {
            if full.len() < 80 {
                full.push(c[i]);
            }
            proof {
                assert(c@.take(i as int + 1) =~= c@.take(i as int).push(c@[i as int]));
            }
            i = i + 1;
        }
        let mut j: usize = 0;
        while j < a.len()
            invariant
                j <= a@.len(),
                i == c@.len(),
                full@ == trunc(c@ + a@.take(j as int), 80),
            decreases a@.len() - j,
        {
            if full.len() < 80 {
                full.push(a[j]);
            }
            proof {
                assert(c@ + a@.take(j as int + 1) =~= (c@ + a@.take(j as int)).push(a@[j as int]));
            }
            j = j + 1;
        }
        proof {
            assert(c@.take(c@.len() as int) =~= c@);
            assert(a@.take(a@.len() as int) =~= a@);
        }
        match str_from_utf8(full.as_slice()) {
            Some(expr) => Command::Calc(expr.to_owned()),
            None => Command::Unknown(cmd.to_owned()),
        }
    } else {
        Command::Unknown(cmd.to_owned())
    }
}

/// Whether the command `cv` faults when run: an expression whose sum or
/// product does not fit, or that divides by zero.
pub open spec fn command_faults(cv: CommandView) -> bool {
    match cv {
        CommandView::Calc(e) => crate::shell::commands::calc_faults(crate::shell::commands::enc(crate::shell::text::trim(e))),
        _ => false,
    }
}

/// What a command run by the shell itself prints (all but `clear`, which
/// clears the screen, and the commands handed back to the caller).
pub open spec fn command_output(cv: CommandView) -> Seq<(Seq<u8>, u8)> {
    match cv {
        CommandView::Help => crate::shell::commands::help_text(),
        CommandView::Echo(a) => if a.len() == 0 {
            seq![(crate::shell::commands::enc("\n"@), crate::shell::commands::on_black(Color::White))]
        } else {
            seq![
                (crate::shell::commands::enc(a), crate::shell::commands::on_black(Color::White)),
                (crate::shell::commands::enc("\n"@), crate::shell::commands::on_black(Color::White)),
            ]
        },
        CommandView::Calc(e) => crate::shell::commands::calc_output(crate::shell::text::trim(e)),
        CommandView::Unknown(c) => unknown_output(c),
        _ => Seq::empty(),
    }
}

/// What `unknown_command` prints for `cmd`.
pub open spec fn unknown_output(cmd: Seq<char>) -> Seq<(Seq<u8>, u8)> {
    seq![
        (crate::shell::commands::enc("Unknown command: "@), crate::shell::commands::on_black(Color::LightRed)),
        (crate::shell::commands::enc(cmd), crate::shell::commands::on_black(Color::LightRed)),
        (crate::shell::commands::enc("\nType 'help' for available commands.\n"@), crate::shell::commands::on_black(Color::White)),
    ]
}

/// The prompt.
pub open spec fn prompt_output() -> Seq<(Seq<u8>, u8)> {
    seq![(crate::shell::commands::enc("> "@), crate::shell::commands::on_black(Color::LightGreen))]
}

/// Whether the shell runs `cv` itself; the others go back to the caller.
pub open spec fn runs_inline(cv: CommandView) -> bool {
    match cv {
        CommandView::Stack | CommandView::UserStack | CommandView::Reboot | CommandView::Halt | CommandView::Paging => false,
        _ => true,
    }
}

/// What running `cv` inline does to the screen.
pub open spec fn run_inline(st: crate::vga::text_mod::out::ScreenState, cv: CommandView) -> crate::vga::text_mod::out::ScreenState {
    match cv {
        CommandView::Clear => crate::vga::text_mod::out::ScreenState {
            cells: Seq::new(2000, |i: int| crate::vga::text_mod::out::cell_value(0x20u8, crate::shell::commands::on_black(Color::White))),
            x: 0,
            y: 0,
        },
        _ => crate::shell::commands::print_lines(st, command_output(cv)),
    }
}

/// What a key press leaves for the caller to do.
#[derive(Clone, Copy, PartialEq, Eq, Structural, Debug)]
pub enum ShellAction {
    /// Nothing: the shell has done all there was to do.
    Done,
    /// Show the kernel stack, then the prompt.
    Stack,
    /// Show the user stack, then the prompt.
    UserStack,
    /// Reboot the machine.
    Reboot,
    /// Halt the CPU.
    Halt,
    /// Show paging information, then the prompt.
    Paging,
}

/// The action handed back for a command the shell does not run itself.
pub open spec fn action_for(cv: CommandView) -> ShellAction {
    match cv {
        CommandView::Stack => ShellAction::Stack,
        CommandView::UserStack => ShellAction::UserStack,
        CommandView::Reboot => ShellAction::Reboot,
        CommandView::Halt => ShellAction::Halt,
        CommandView::Paging => ShellAction::Paging,
        _ => ShellAction::Done,
    }
}

/// The shell: the line being typed.
pub struct Shell {
    buffer: [u8; 80],
    pos: usize,
}

impl Shell {
    /// The line typed so far.
    pub closed spec fn line(&self) -> Seq<u8> {
        self.buffer@.take(self.pos as int)
    }

    /// The whole line buffer, past the typed bytes too.
    pub closed spec fn buffer_bytes(&self) -> Seq<u8> {
        self.buffer@
    }

    /// Number of bytes typed on the current line.
    pub closed spec fn len(&self) -> nat {
        self.pos as nat
    }

    /// The invariant: the line leaves one byte of the buffer free, and its
    /// length is the number of bytes typed.
    pub open spec fn wf(&self) -> bool {
        &&& self.len() < MAX_LINE_LEN
        &&& self.line().len() == self.len()
    }

    /// Number of bytes typed on the current line.
    pub fn pos(&self) -> (r: usize)
        ensures
            r == self.len(),
    {
        self.pos
    }

    /// A shell with an empty line.
    pub fn new() -> (r: Self)
        ensures
            r.wf(),
            r.line() == Seq::<u8>::empty(),
            r.len() == 0,
            r.buffer_bytes() == Seq::new(MAX_LINE_LEN as nat, |i: int| 0u8),
    {
        let r = Shell { buffer: [0u8; 80], pos: 0 };
        assert(r.line() =~= Seq::<u8>::empty());
        assert(r.buffer_bytes() =~= Seq::new(MAX_LINE_LEN as nat, |i: int| 0u8));
        r
    }

    /// Print the prompt.
    pub fn prompt(&self, screen: &mut Screen)
        requires
            crate::vga::text_mod::out::on_screen(old(screen).state()),
        ensures
            crate::vga::text_mod::out::on_screen(final(screen).state()),
            final(screen).state() == crate::shell::commands::print_lines(old(screen).state(), prompt_output()),
    {
        screen.print("> ", ColorCode::new(Color::LightGreen, Color::Black));
        proof {
            reveal_with_fuel(crate::shell::commands::print_lines, 2);
        }
    }

    /// Report an unknown command.
    pub fn unknown_command(&self, screen: &mut Screen, cmd: &str)
        requires
            crate::vga::text_mod::out::on_screen(old(screen).state()),
        ensures
            crate::vga::text_mod::out::on_screen(final(screen).state()),
            final(screen).state() == crate::shell::commands::print_lines(old(screen).state(), unknown_output(cmd@)),
    {
        screen.print("Unknown command: ", ColorCode::new(Color::LightRed, Color::Black));
        screen.print(cmd, ColorCode::new(Color::LightRed, Color::Black));
        screen.print("\nType 'help' for available commands.\n", ColorCode::new(Color::White, Color::Black));
        proof {
            reveal_with_fuel(crate::shell::commands::print_lines, 4);
        }
    }

    /// Parse the typed line into a command; the byte after the line is set
    /// to 0 first.
    fn process_line(&mut self) -> (r: Command)
        requires
            old(self).wf(),
        ensures
            final(self).wf(),
            final(self).len() == old(self).len(),
            final(self).line() == old(self).line(),
            r@ == line_command(old(self).line()),
    {
        if self.pos == 0 {
            return self.parse_line();
        }
        let ghost line0 = self.line();
        self.buffer[self.pos] = 0;
        assert(self.line() =~= line0);
        self.parse_line()
    }

    /// The command the typed line stands for.
    fn parse_line(&self) -> (r: Command)
        requires
            self.wf(),
        ensures
            r@ == line_command(self.line()),
    {
        if self.pos == 0 {
            proof {
                assert(self.line() =~= Seq::<u8>::empty());
                assert(vstd::utf8::valid_utf8(Seq::<u8>::empty()));
                assert(crate::shell::text::text_or_empty(Seq::<u8>::empty()) =~= Seq::<char>::empty());
            }
            return Command::Nothing;
        }
        let ghost line0 = self.line();
        let mut line_bytes: Vec<u8> = Vec::new();
        let mut i: usize = 0;
        while i < self.pos
            invariant
                i <= self.pos,
                self.pos < 80,
                line_bytes@ == self.buffer@.take(i as int),
            decreases self.pos - i,
        {
            line_bytes.push(self.buffer[i]);
            proof {
                assert(self.buffer@.take(i as int + 1) =~= self.buffer@.take(i as int).push(self.buffer@[i as int]));
            }
            i = i + 1;
        }
        let line = match str_from_utf8(line_bytes.as_slice()) {
            Some(s) => s,
            None => "",
        };
        proof {
            if !vstd::utf8::valid_utf8(line0) {
                reveal_strlit("");
                assert(line@ =~= Seq::<char>::empty());
            }
        }
        let line = str_trim(line);
        if line.is_empty() {
            return Command::Nothing;
        }
        let bytes = line.as_bytes();
        let ghost b = bytes@;
        let mut cmd_buf: Vec<u8> = Vec::new();
        let mut args_buf: Vec<u8> = Vec::new();
        let mut in_args = false;
        let mut k: usize = 0;
        let mut idx: usize = 0;
        while idx < bytes.len()
            invariant
                idx <= b.len(),
                b == bytes@,
                !in_args ==> forall|j: int| 0 <= j < idx ==> #[trigger] b[j] != 32,
                !in_args ==> cmd_buf@ == trunc(b.take(idx as int), 16),
                !in_args ==> args_buf@ == Seq::<u8>::empty(),
                in_args ==> first_space(b, k as int) && k < idx,
                in_args ==> cmd_buf@ == trunc(b.take(k as int), 16),
                in_args ==> args_buf@ == trunc(b.subrange(k as int + 1, idx as int), 64),
            decreases b.len() - idx,
        {
            let byte = bytes[idx];
            if byte == 32 && !in_args {
                in_args = true;
                k = idx;
                proof {
                    assert(b.subrange(k as int + 1, idx as int + 1) =~= Seq::<u8>::empty());
                }
            } else if in_args {
                if args_buf.len() < 64 {
                    args_buf.push(byte);
                }
                proof {
                    assert(b.subrange(k as int + 1, idx as int + 1) =~= b.subrange(k as int + 1, idx as int).push(byte));
                }
            } else {
                if cmd_buf.len() < 16 {
                    cmd_buf.push(byte);
                }
                proof {
                    assert(b.take(idx as int + 1) =~= b.take(idx as int).push(byte));
                }
            }
            idx = idx + 1;
        }
        proof {
            if in_args {
                assert(has_space(b));
                let c = choose|c: int| first_space(b, c);
                assert(c == k);
                assert(b.subrange(k as int + 1, b.len() as int) =~= b.skip(k as int + 1));
            } else {
                assert(!has_space(b));
                assert(b.take(b.len() as int) =~= b);
            }
        }
        let cmd = match str_from_utf8(cmd_buf.as_slice()) {
            Some(s) => s,
            None => "",
        };
        let args = match str_from_utf8(args_buf.as_slice()) {
            Some(s) => s,
            None => "",
        };
        proof {
            reveal_strlit("");
            if !vstd::utf8::valid_utf8(cmd_buf@) {
                assert(cmd@ =~= Seq::<char>::empty());
            }
            if !vstd::utf8::valid_utf8(args_buf@) {
                assert(args@ =~= Seq::<char>::empty());
            }
        }
        execute(cmd, args)
    }
}

impl Shell {
    /// Whether pressing Enter now would fault (see `command_faults`): the
    /// test a caller makes before handing Enter to `on_char`.
    pub fn enter_would_fault(&self) -> (r: bool)
        requires
            self.wf(),
        ensures
            r == command_faults(line_command(self.line())),
    {
        match self.parse_line() {
            Command::Calc(e) => {
                let t = str_trim(e.as_str());
                crate::shell::commands::calc_would_fault(t.as_bytes())
            },
            _ => false,
        }
    }

    /// Handle one typed character. Enter (`\n` or `\r`) prints a newline,
    /// runs the line's command (or hands it back) and starts a new line;
    /// backspace (`\x08` or `\x7f`) drops the last byte; any other character
    /// is appended (its low byte) while the line has room.
    pub fn on_char(&mut self, screen: &mut Screen, c: char) -> (r: ShellAction)
        requires
            old(self).wf(),
            crate::vga::text_mod::out::on_screen(old(screen).state()),
            (c == '\n' || c == '\r') ==> !command_faults(line_command(old(self).line())),
        ensures
            final(self).wf(),
            crate::vga::text_mod::out::on_screen(final(screen).state()),
            if c == '\n' || c == '\r' {
                let cv = line_command(old(self).line());
                let st1 = crate::shell::commands::print_lines(
                    old(screen).state(),
                    seq![(crate::shell::commands::enc("\n"@), crate::shell::commands::on_black(Color::White))],
                );
                &&& final(self).line() == Seq::<u8>::empty()
                &&& if runs_inline(cv) {
                    &&& final(screen).state() == crate::shell::commands::print_lines(run_inline(st1, cv), prompt_output())
                    &&& r is Done
                } else {
                    &&& final(screen).state() == st1
                    &&& r == action_for(cv)
                }
            } else if c == '\x08' || c == '\x7f' {
                &&& final(screen).state() == old(screen).state()
                &&& final(self).line() == if old(self).len() > 0 { old(self).line().drop_last() } else { old(self).line() }
                &&& old(self).len() == 0 ==> *final(self) == *old(self)
                &&& r is Done
            } else {
                &&& final(screen).state() == old(screen).state()
                &&& final(self).line() == if old(self).len() < MAX_LINE_LEN - 1 {
                    old(self).line().push((c as u32) as u8)
                } else {
                    old(self).line()
                }
                &&& old(self).len() >= MAX_LINE_LEN - 1 ==> *final(self) == *old(self)
                &&& r is Done
            },
    {
        if c == '\n' || c == '\r' {
            screen.print("\n", ColorCode::new(Color::White, Color::Black));
            proof {
                reveal_with_fuel(crate::shell::commands::print_lines, 2);
            }
            let cmd = self.process_line();
            self.pos = 0;
            proof {
                assert(self.line() =~= Seq::<u8>::empty());
            }
            let ghost st1 = screen.state();
            match cmd {
                Command::Nothing => {},
                Command::Help => crate::shell::commands::cmd_help(screen),
                Command::Clear => {
                    crate::shell::commands::cmd_clear(screen);
                    proof {
                        assert(crate::vga::text_mod::out::on_screen(screen.state()));
                    }
                },
                Command::Echo(a) => crate::shell::commands::cmd_echo(screen, a.as_str()),
                Command::Calc(e) => crate::shell::commands::cmd_calc(screen, e.as_str()),
                Command::Unknown(u) => self.unknown_command(screen, u.as_str()),
                Command::Stack => return ShellAction::Stack,
                Command::UserStack => return ShellAction::UserStack,
                Command::Reboot => return ShellAction::Reboot,
                Command::Halt => return ShellAction::Halt,
                Command::Paging => return ShellAction::Paging,
            }
            self.prompt(screen);
            return ShellAction::Done;
        }
        if c == '\x08' || c == '\x7f' {
            if self.pos > 0 {
                let ghost line0 = self.line();
                self.pos = self.pos - 1;
                self.buffer[self.pos] = 0;
                assert(self.line() =~= line0.drop_last());
            }
            return ShellAction::Done;
        }
        if self.pos < MAX_LINE_LEN - 1 {
            let ghost line0 = self.line();
            let b = (c as u32) as u8;
            self.buffer[self.pos] = b;
            self.pos = self.pos + 1;
            assert(self.line() =~= line0.push(b));
        }
        ShellAction::Done
    }
}

/// A character typed while the line has room, then a backspace, leave the
/// line as it was.
pub proof fn law_backspace_undoes_typing(line: Seq<u8>, b: u8)
    requires
        line.len() < MAX_LINE_LEN - 1,
    ensures
        line.push(b).drop_last() == line,
        line.push(b).len() > 0,
{
    assert(line.push(b).drop_last() =~= line);
}


/// A word is taken for arithmetic exactly when one of `+`, `-`, `*`, `/`
/// (bytes 43, 45, 42, 47) stands in it past its first byte: `10-3`, `4*5`
/// and `8/2` are evaluated, `-3` alone is not.
pub proof fn law_math_words(b: Seq<u8>)
    ensures
        looks_like_math(b) <==> exists|k: int| 1 <= k < b.len() && (b[k] == 43u8 || b[k] == 45u8 || b[k] == 42u8
            || b[k] == 47u8),
{
    if exists|k: int| 1 <= k < b.len() && (b[k] == 43u8 || b[k] == 45u8 || b[k] == 42u8 || b[k] == 47u8) {
        let k = choose|k: int| 1 <= k < b.len() && (b[k] == 43u8 || b[k] == 45u8 || b[k] == 42u8 || b[k] == 47u8);
        assert(crate::shell::commands::is_op(b[k]));
    }
}

} // verus!
