//! The shell's commands and the number formatting they use.
use vstd::prelude::*;
use crate::vga::text_mod::out::{Screen, ScreenState, Color, ColorCode, on_screen};
use crate::paging::mapper::AddressSpace;

verus! {

/// ASCII code of a decimal digit.
pub open spec fn digit_byte(d: int) -> u8 {
    (48 + d) as u8
}

/// ASCII code of a hexadecimal digit (upper case).
pub open spec fn hex_byte(d: int) -> u8 {
    if d < 10 { (48 + d) as u8 } else { (55 + d) as u8 }
}

/// The decimal digits of `n`, most significant first, without leading zeros
/// ("0" for zero).
pub open spec fn dec_text(n: nat) -> Seq<u8>
    decreases n,
{
    if n < 10 {
        seq![digit_byte(n as int)]
    } else {
        dec_text(n / 10) + seq![digit_byte((n % 10) as int)]
    }
}

/// The 8 hexadecimal digits of the low 32 bits of `v`, most significant first.
pub open spec fn hex_text(v: usize) -> Seq<u8> {
    Seq::new(8, |i: int| hex_byte(((v >> ((28 - 4 * i) as usize)) & 0xF) as int))
}

/// Whether `b` is an ASCII decimal digit.
pub open spec fn is_digit(b: u8) -> bool {
    48 <= b <= 57
}

/// The value of a sequence of decimal digits.
pub open spec fn digits_value(s: Seq<u8>) -> nat
    decreases s.len(),
{
    if s.len() == 0 {
        0
    } else {
        digits_value(s.drop_last()) * 10 + (s.last() - 48) as nat
    }
}

/// What parsing `s` as a `usize` gives: an optional `+`, then one or more
/// decimal digits whose value fits.
pub open spec fn parse_usize_spec(s: Seq<u8>) -> Option<usize> {
    let body = number_body(s);
    if body.len() > 0 && (forall|i: int| 0 <= i < body.len() ==> is_digit(#[trigger] body[i])) && digits_value(body)
        <= usize::MAX {
        Some(digits_value(body) as usize)
    } else {
        None
    }
}

/// The digits of a number: `s` without a leading `+`.
pub open spec fn number_body(s: Seq<u8>) -> Seq<u8> {
    if s.len() > 0 && s[0] == 43 { s.drop_first() } else { s }
}

/// Whether `b` is one of `+ - * /`.
pub open spec fn is_op(b: u8) -> bool {
    b == 43 || b == 45 || b == 42 || b == 47
}

/// `k` is the first operator of `s` past its first byte.
pub open spec fn first_op(s: Seq<u8>, k: int) -> bool {
    &&& 1 <= k < s.len()
    &&& is_op(s[k])
    &&& forall|j: int| 1 <= j < k ==> !is_op(#[trigger] s[j])
}

/// Whether `s` has an operator past its first byte.
pub open spec fn has_op(s: Seq<u8>) -> bool {
    exists|k: int| 1 <= k < s.len() && is_op(#[trigger] s[k])
}

/// The operands and operator of `s`, split at its first operator past the
/// first byte, when both operands parse.
pub open spec fn calc_operands(s: Seq<u8>) -> Option<(usize, u8, usize)> {
    if has_op(s) {
        let k = choose|k: int| first_op(s, k);
        match (parse_usize_spec(s.take(k)), parse_usize_spec(s.skip(k + 1))) {
            (Some(l), Some(r)) => Some((l, s[k], r)),
            _ => None,
        }
    } else {
        None
    }
}

/// Whether evaluating `s` faults: a sum or product that does not fit, or a
/// division by zero.
pub open spec fn calc_faults(s: Seq<u8>) -> bool {
    match calc_operands(s) {
        Some((l, op, r)) => (op == 43 && l + r > usize::MAX) || (op == 42 && l * r > usize::MAX) || (op == 47
            && r == 0),
        None => false,
    }
}

/// The value of `s` as `<number><op><number>`: sum, saturating difference,
/// product or quotient; `None` when it is not of that form.
pub open spec fn calc_value(s: Seq<u8>) -> Option<usize> {
    match calc_operands(s) {
        Some((l, op, r)) => Some(
            if op == 43 {
                (l + r) as usize
            } else if op == 45 {
                if l >= r { (l - r) as usize } else { 0 }
            } else if op == 42 {
                (l * r) as usize
            } else {
                (l / r) as usize
            },
        ),
        None => None,
    }
}

/// Parse `s` as a `usize`: an optional `+`, then one or more decimal digits
/// whose value fits.
pub fn parse_usize(s: &[u8]) -> (r: Option<usize>)
    ensures
        r == parse_usize_spec(s@),
{
    let mut i: usize = 0;
    if s.len() > 0 && s[0] == 43 {
        i = 1;
    }
    let ghost body = number_body(s@);
    let start = i;
    if start >= s.len() {
        return None;
    }
    let mut value: usize = 0;
    while i < s.len()
        invariant
            start <= i <= s@.len(),
            start == 0 || start == 1,
            body == s@.skip(start as int),
            body == number_body(s@),
            forall|j: int| 0 <= j < i - start ==> is_digit(#[trigger] body[j]),
            value == digits_value(body.take(i - start)),
        decreases s@.len() - i,
    {
        let b = s[i];
        proof {
            assert(body.take(i - start + 1).drop_last() =~= body.take(i - start));
            assert(body[i - start] == b);
        }
        if b < 48 || b > 57 {
            proof {
                assert(!is_digit(body[i - start]));
                assert(parse_usize_spec(s@) is None);
            }
            return None;
        }
        if value > (usize::MAX - (b - 48) as usize) / 10 {
            proof {
                lemma_digits_grow(body, i - start + 1, (i - start + 1) as int);
                assert(digits_value(body.take(i - start + 1)) == value * 10 + (b - 48) as nat);
                assert(value * 10 + (b - 48) > usize::MAX) by (nonlinear_arith)
                    requires
                        value > (usize::MAX - (b - 48) as usize) / 10,
                        b >= 48,
                ;
                if forall|j: int| 0 <= j < body.len() ==> is_digit(#[trigger] body[j]) {
                    lemma_digits_prefix_le(body, i - start + 1, body.len() as int);
                    assert(body.take(body.len() as int) =~= body);
                }
                assert(parse_usize_spec(s@) is None);
            }
            return None;
        }
        value = value * 10 + (b - 48) as usize;
        i = i + 1;
    }
    proof {
        assert(body.take(body.len() as int) =~= body);
    }
    Some(value)
}

/// Prefixes of a digit string are worth no more than the whole.
proof fn lemma_digits_prefix_le(s: Seq<u8>, a: int, b: int)
    requires
        0 <= a <= b <= s.len(),
        forall|j: int| 0 <= j < b ==> is_digit(#[trigger] s[j]),
    ensures
        digits_value(s.take(a)) <= digits_value(s.take(b)),
    decreases b - a,
{
    if a < b {
        lemma_digits_prefix_le(s, a, b - 1);
        assert(s.take(b).drop_last() =~= s.take(b - 1));
        assert(digits_value(s.take(b - 1)) <= digits_value(s.take(b - 1)) * 10) by (nonlinear_arith);
    }
}

/// The value of a digit prefix extended by one digit.
proof fn lemma_digits_grow(s: Seq<u8>, n: int, m: int)
    requires
        0 < n <= s.len(),
        m == n,
    ensures
        digits_value(s.take(n)) == digits_value(s.take(n - 1)) * 10 + (s[n - 1] - 48) as nat,
{
    assert(s.take(n).drop_last() =~= s.take(n - 1));
}

/// The first operator past the first byte is unique.
proof fn lemma_first_op_unique(s: Seq<u8>, a: int, b: int)
    requires
        first_op(s, a),
        first_op(s, b),
    ensures
        a == b,
{
}

/// Split `expr` at its first operator (`+ - * /`) past the first byte and
/// parse both operands; `None` when there is no operator or an operand does
/// not parse.
fn split_operands(expr: &[u8]) -> (r: Option<(usize, u8, usize)>)
    ensures
        r == calc_operands(expr@),
        r matches Some((_l, op, _r)) ==> is_op(op),
{
    let mut op_idx: usize = 0;
    let mut found = false;
    let mut i: usize = 1;
    while i < expr.len() && !found
        invariant
            1 <= i,
            i <= expr@.len() || (expr@.len() == 0 && i == 1),
            !found ==> forall|j: int| 1 <= j < i ==> !is_op(#[trigger] expr@[j]),
            found ==> first_op(expr@, op_idx as int),
        decreases expr@.len() - i + (if found { 0int } else { 1int }),
    {
        let b = expr[i];
        if b == 43 || b == 45 || b == 42 || b == 47 {
            op_idx = i;
            found = true;
        } else {
            i = i + 1;
        }
    }
    if !found {
        proof {
            assert(!has_op(expr@));
        }
        return None;
    }
    proof {
        assert(first_op(expr@, op_idx as int));
        assert(has_op(expr@));
        let k = choose|k: int| first_op(expr@, k);
        lemma_first_op_unique(expr@, k, op_idx as int);
    }
    let op_char = expr[op_idx];
    let (left_str, rest) = expr.split_at(op_idx);
    let (_op, right_str) = rest.split_at(1);
    proof {
        assert(left_str@ =~= expr@.take(op_idx as int));
        assert(right_str@ =~= expr@.skip(op_idx as int + 1));
    }
    let left = match parse_usize(left_str) {
        Some(v) => v,
        None => return None,
    };
    let right = match parse_usize(right_str) {
        Some(v) => v,
        None => return None,
    };
    Some((left, op_char, right))
}

/// Evaluate `expr` of the form `<number><op><number>`, split at its first
/// operator (`+ - * /`) past the first byte: the sum, the difference (0 when
/// it would be negative), the product or the quotient. `None` when there is
/// no operator or an operand does not parse.
pub fn parse_and_eval(expr: &[u8]) -> (r: Option<usize>)
    requires
        !calc_faults(expr@),
    ensures
        r == calc_value(expr@),
{
    let (left, op_char, right) = match split_operands(expr) {
        Some(t) => t,
        None => return None,
    };
    let result = if op_char == 43 {
        left + right
    } else if op_char == 45 {
        left.saturating_sub(right)
    } else if op_char == 42 {
        left * right
    } else {
        left / right
    };
    Some(result)
}

/// Whether evaluating `expr` faults (see `calc_faults`): the test a caller
/// makes before `parse_and_eval`.
pub fn calc_would_fault(expr: &[u8]) -> (r: bool)
    ensures
        r == calc_faults(expr@),
{
    match split_operands(expr) {
        Some((left, op_char, right)) => {
            if op_char == 43 {
                left.checked_add(right).is_none()
            } else if op_char == 42 {
                left.checked_mul(right).is_none()
            } else if op_char == 47 {
                right == 0
            } else {
                false
            }
        },
        None => false,
    }
}

/// The colour code of `c` on black.
pub open spec fn on_black(c: Color) -> u8 {
    crate::vga::text_mod::out::color_value(c)
}

/// What printing the pieces `lines` (bytes and colour code) one after the
/// other does.
pub open spec fn print_lines(
    st: crate::vga::text_mod::out::ScreenState,
    lines: Seq<(Seq<u8>, u8)>,
) -> crate::vga::text_mod::out::ScreenState
    decreases lines.len(),
{
    if lines.len() == 0 {
        st
    } else {
        crate::vga::text_mod::out::print_bytes(print_lines(st, lines.drop_last()), lines.last().0, lines.last().1)
    }
}

/// The UTF-8 bytes of a text.
pub open spec fn enc(s: Seq<char>) -> Seq<u8> {
    vstd::utf8::encode_utf8(s)
}

/// The bytes and colour of each line in `lines`.
pub open spec fn line_views(lines: Seq<(&'static str, ColorCode)>) -> Seq<(Seq<u8>, u8)> {
    lines.map_values(|l: (&'static str, ColorCode)| (enc(l.0@), l.1.0))
}

/// Printing one more piece prints it after the others.
pub proof fn lemma_print_lines_push(
    st: crate::vga::text_mod::out::ScreenState,
    lines: Seq<(Seq<u8>, u8)>,
    piece: (Seq<u8>, u8),
)
    ensures
        print_lines(st, lines.push(piece)) == crate::vga::text_mod::out::print_bytes(
            print_lines(st, lines),
            piece.0,
            piece.1,
        ),
{
    assert(lines.push(piece).drop_last() =~= lines);
}

/// The code of `fg` on black.
pub(crate) fn on_black_code(fg: Color) -> (r: ColorCode)
    ensures
        r.0 == on_black(fg),
{
    ColorCode::new(fg, Color::Black)
}

/// Print the lines of `lines` one after the other.
pub fn print_all(screen: &mut Screen, lines: &Vec<(&'static str, ColorCode)>)
    requires
        crate::vga::text_mod::out::on_screen(old(screen).state()),
    ensures
        crate::vga::text_mod::out::on_screen(final(screen).state()),
        final(screen).state() == print_lines(old(screen).state(), line_views(lines@)),
{
    let mut i: usize = 0;
    while i < lines.len()
        invariant
            i <= lines@.len(),
            crate::vga::text_mod::out::on_screen(screen.state()),
            screen.state() == print_lines(old(screen).state(), line_views(lines@.take(i as int))),
        decreases lines@.len() - i,
    {
        let (text, color) = lines[i];
        proof {
            assert(line_views(lines@.take(i as int + 1)).drop_last() =~= line_views(lines@.take(i as int)));
            assert(line_views(lines@.take(i as int + 1)).last() == (enc(text@), color.0));
        }
        screen.print(text, color);
        i = i + 1;
    }
    proof {
        assert(lines@.take(lines@.len() as int) =~= lines@);
    }
}

/// The decimal digits of `n` (see `dec_text`).
pub fn dec_digits(n: usize) -> (r: Vec<u8>)
    ensures
        r@ == dec_text(n as nat),
    decreases n,
{
    if n < 10 {
        let mut v: Vec<u8> = Vec::new();
        v.push(48 + n as u8);
        v
    } else {
        let mut v = dec_digits(n / 10);
        v.push(48 + (n % 10) as u8);
        v
    }
}

/// The 8 hexadecimal digits of the low 32 bits of `val` (see `hex_text`).
pub fn hex_digits(val: usize) -> (r: Vec<u8>)
    ensures
        r@ == hex_text(val),
{
    let mut digits: Vec<u8> = Vec::new();
    let mut i: usize = 8;
    while i > 0
        invariant
            i <= 8,
            digits@ == hex_text(val).take(8 - i),
        decreases i,
    {
        i = i - 1;
        let nibble = (val >> (i * 4)) & 0xF;
        assert(nibble <= 15) by (bit_vector)
            requires
                nibble == (val >> (i * 4)) & 0xF,
        ;
        let c = if nibble < 10 { 48 + nibble as u8 } else { 55 + nibble as u8 };
        digits.push(c);
        proof {
            assert(hex_text(val).take(8 - i) =~= hex_text(val).take(8 - i - 1).push(c));
        }
    }
    proof {
        assert(hex_text(val).take(8) =~= hex_text(val));
    }
    digits
}

/// Print `val` as `0x` and 8 hexadecimal digits, in light cyan.
pub fn print_hex(screen: &mut Screen, val: usize)
    requires
        crate::vga::text_mod::out::on_screen(old(screen).state()),
    ensures
        crate::vga::text_mod::out::on_screen(final(screen).state()),
        final(screen).state() == crate::vga::text_mod::out::print_bytes(
            crate::vga::text_mod::out::print_bytes(old(screen).state(), vstd::utf8::encode_utf8("0x"@), on_black(Color::LightCyan)),
            hex_text(val),
            on_black(Color::LightCyan),
        ),
{
    let cyan = on_black_code(Color::LightCyan);
    screen.print("0x", cyan);
    let digits = hex_digits(val);
    screen.print_bytes(digits.as_slice(), cyan);
}

/// Print `val` in decimal, in white.
pub fn print_dec(screen: &mut Screen, val: usize)
    requires
        crate::vga::text_mod::out::on_screen(old(screen).state()),
    ensures
        crate::vga::text_mod::out::on_screen(final(screen).state()),
        final(screen).state() == crate::vga::text_mod::out::print_bytes(old(screen).state(), dec_text(val as nat), on_black(Color::White)),
{
    let digits = dec_digits(val);
    screen.print_bytes(digits.as_slice(), on_black_code(Color::White));
}

/// The help text: each line and its colour code.
pub open spec fn help_text() -> Seq<(Seq<u8>, u8)> {
    seq![
        (enc("Available commands:\n"@), on_black(Color::White)),
        (enc("  help       - Show this help message\n"@), on_black(Color::White)),
        (enc("  stack      - Print kernel stack info (base, top, size)\n"@), on_black(Color::White)),
        (enc("  userstack  - Print user stack info (base, top, size)\n"@), on_black(Color::White)),
        (enc("  reboot     - Reboot the system\n"@), on_black(Color::White)),
        (enc("  halt       - Halt the CPU\n"@), on_black(Color::White)),
        (enc("  clear      - Clear the screen\n"@), on_black(Color::White)),
        (enc("  echo <msg> - Echo the given message\n"@), on_black(Color::White)),
        (enc("  calc <expr>- Calculate: 1+1, 10/2, 5*3, 8-4\n"@), on_black(Color::White)),
        (enc("  paging     - Show paging info and run live tests\n"@), on_black(Color::White)),
        (enc("\nMath expressions (no space needed):\n"@), on_black(Color::LightCyan)),
        (enc("  1+1        - Addition\n"@), on_black(Color::White)),
        (enc("  10-3       - Subtraction\n"@), on_black(Color::White)),
        (enc("  4*5        - Multiplication\n"@), on_black(Color::White)),
        (enc("  20/4       - Division\n"@), on_black(Color::White)),
        (enc("  5/0        - Division by zero (triggers CPU exception 0!)\n"@), on_black(Color::Yellow))
    ]
}

/// The lines of the help text.
fn help_lines() -> (r: Vec<(&'static str, ColorCode)>)
    ensures
        line_views(r@) == help_text(),
{
    let mut v: Vec<(&'static str, ColorCode)> = Vec::new();
    v.push(("Available commands:\n", on_black_code(Color::White)));
    v.push(("  help       - Show this help message\n", on_black_code(Color::White)));
    v.push(("  stack      - Print kernel stack info (base, top, size)\n", on_black_code(Color::White)));
    v.push(("  userstack  - Print user stack info (base, top, size)\n", on_black_code(Color::White)));
    v.push(("  reboot     - Reboot the system\n", on_black_code(Color::White)));
    v.push(("  halt       - Halt the CPU\n", on_black_code(Color::White)));
    v.push(("  clear      - Clear the screen\n", on_black_code(Color::White)));
    v.push(("  echo <msg> - Echo the given message\n", on_black_code(Color::White)));
    v.push(("  calc <expr>- Calculate: 1+1, 10/2, 5*3, 8-4\n", on_black_code(Color::White)));
    v.push(("  paging     - Show paging info and run live tests\n", on_black_code(Color::White)));
    v.push(("\nMath expressions (no space needed):\n", on_black_code(Color::LightCyan)));
    v.push(("  1+1        - Addition\n", on_black_code(Color::White)));
    v.push(("  10-3       - Subtraction\n", on_black_code(Color::White)));
    v.push(("  4*5        - Multiplication\n", on_black_code(Color::White)));
    v.push(("  20/4       - Division\n", on_black_code(Color::White)));
    v.push(("  5/0        - Division by zero (triggers CPU exception 0!)\n", on_black_code(Color::Yellow)));
    assert(line_views(v@) =~= help_text());
    v
}

/// Print the list of commands.
pub fn cmd_help(screen: &mut Screen)
    requires
        crate::vga::text_mod::out::on_screen(old(screen).state()),
    ensures
        crate::vga::text_mod::out::on_screen(final(screen).state()),
        final(screen).state() == print_lines(old(screen).state(), help_text()),
{
    let lines = help_lines();
    print_all(screen, &lines);
}

/// Clear the screen (white on black).
pub fn cmd_clear(screen: &mut Screen)
    ensures
        final(screen).state() == (crate::vga::text_mod::out::ScreenState {
            cells: Seq::new(2000, |i: int| crate::vga::text_mod::out::cell_value(0x20u8, on_black(Color::White))),
            x: 0,
            y: 0,
        }),
{
    screen.clear(on_black_code(Color::White));
}

/// Print `args` and a newline (only the newline when `args` is empty).
pub fn cmd_echo(screen: &mut Screen, args: &str)
    requires
        crate::vga::text_mod::out::on_screen(old(screen).state()),
    ensures
        crate::vga::text_mod::out::on_screen(final(screen).state()),
        final(screen).state() == if args@.len() == 0 {
            print_lines(old(screen).state(), seq![(enc("\n"@), on_black(Color::White))])
        } else {
            print_lines(old(screen).state(), seq![(enc(args@), on_black(Color::White)), (enc("\n"@), on_black(Color::White))])
        },
{
    let white = on_black_code(Color::White);
    if args.is_empty() {
        screen.print("\n", white);
    } else {
        screen.print(args, white);
        screen.print("\n", white);
    }
    proof {
        reveal_with_fuel(print_lines, 3);
    }
}

/// What `cmd_calc` prints for the (already trimmed) expression `e`.
pub open spec fn calc_output(e: Seq<char>) -> Seq<(Seq<u8>, u8)> {
    if e.len() == 0 {
        seq![
            (enc("Usage: <number><op><number>  e.g. 1+1, 10/2, 5*3\n"@), on_black(Color::LightCyan)),
            (enc("Supports: +  -  *  /\n"@), on_black(Color::LightCyan)),
            (enc("Try '5/0' to trigger a division by zero error!\n"@), on_black(Color::Yellow)),
        ]
    } else {
        match calc_value(enc(e)) {
            Some(v) => seq![
                (enc(e), on_black(Color::LightCyan)),
                (enc(" = "@), on_black(Color::White)),
                (dec_text(v as nat), on_black(Color::White)),
                (enc("\n"@), on_black(Color::White)),
            ],
            None => seq![
                (enc("Invalid expression: "@), on_black(Color::LightRed)),
                (enc(e), on_black(Color::LightRed)),
                (enc("\nExpected format: <number><op><number>\n"@), on_black(Color::White)),
                (enc("Example: 10+5, 20/4, 7*3, 100-50\n"@), on_black(Color::White)),
            ],
        }
    }
}

/// Evaluate the expression `expr` (trimmed) and print the result, or usage
/// help when it is empty, or an error when it is not `<number><op><number>`.
pub fn cmd_calc(screen: &mut Screen, expr: &str)
    requires
        crate::vga::text_mod::out::on_screen(old(screen).state()),
        !calc_faults(enc(crate::shell::text::trim(expr@))),
    ensures
        crate::vga::text_mod::out::on_screen(final(screen).state()),
        final(screen).state() == print_lines(old(screen).state(), calc_output(crate::shell::text::trim(expr@))),
{
    let expr = crate::shell::text::str_trim(expr);
    let ghost st0 = screen.state();
    if expr.is_empty() {
        let mut v: Vec<(&'static str, ColorCode)> = Vec::new();
        v.push(("Usage: <number><op><number>  e.g. 1+1, 10/2, 5*3\n", on_black_code(Color::LightCyan)));
        v.push(("Supports: +  -  *  /\n", on_black_code(Color::LightCyan)));
        v.push(("Try '5/0' to trigger a division by zero error!\n", on_black_code(Color::Yellow)));
        print_all(screen, &v);
        assert(line_views(v@) =~= calc_output(expr@));
        return;
    }
    let bytes = expr.as_bytes();
    match parse_and_eval(bytes) {
        Some(result) => {
            screen.print(expr, on_black_code(Color::LightCyan));
            screen.print(" = ", on_black_code(Color::White));
            print_dec(screen, result);
            screen.print("\n", on_black_code(Color::White));
            proof {
                reveal_with_fuel(print_lines, 5);
            }
        },
        None => {
            screen.print("Invalid expression: ", on_black_code(Color::LightRed));
            screen.print(expr, on_black_code(Color::LightRed));
            screen.print("\nExpected format: <number><op><number>\n", on_black_code(Color::White));
            screen.print("Example: 10+5, 20/4, 7*3, 100-50\n", on_black_code(Color::White));
            proof {
                reveal_with_fuel(print_lines, 5);
            }
        },
    }
}

/// What a stack report prints: the title, then bottom and top in
/// hexadecimal and the size in bytes and KB.
pub open spec fn stack_output(title: Seq<char>, title_color: u8, top: usize, bottom: usize) -> Seq<(Seq<u8>, u8)> {
    let size = (top - bottom) as usize;
    seq![
        (enc(title), title_color),
        (enc("  Bottom: 0x"@), on_black(Color::White)),
        (enc("0x"@), on_black(Color::LightCyan)),
        (hex_text(bottom), on_black(Color::LightCyan)),
        (enc("\n"@), on_black(Color::White)),
        (enc("  Top:    0x"@), on_black(Color::White)),
        (enc("0x"@), on_black(Color::LightCyan)),
        (hex_text(top), on_black(Color::LightCyan)),
        (enc("\n"@), on_black(Color::White)),
        (enc("  Size:   "@), on_black(Color::White)),
        (dec_text(size as nat), on_black(Color::White)),
        (enc(" bytes ("@), on_black(Color::White)),
        (dec_text((size / 1024) as nat), on_black(Color::White)),
        (enc(" KB)\n"@), on_black(Color::White)),
    ]
}

/// Print a stack's bottom, top and size under `title`.
fn stack_report(screen: &mut Screen, title: &str, title_color: ColorCode, top: usize, bottom: usize)
    requires
        crate::vga::text_mod::out::on_screen(old(screen).state()),
        bottom <= top,
    ensures
        crate::vga::text_mod::out::on_screen(final(screen).state()),
        final(screen).state() == print_lines(old(screen).state(), stack_output(title@, title_color.0, top, bottom)),
{
    let size = top - bottom;
    let white = on_black_code(Color::White);
    screen.print(title, title_color);
    screen.print("  Bottom: 0x", white);
    print_hex(screen, bottom);
    screen.print("\n", white);
    screen.print("  Top:    0x", white);
    print_hex(screen, top);
    screen.print("\n", white);
    screen.print("  Size:   ", white);
    print_dec(screen, size);
    screen.print(" bytes (", white);
    print_dec(screen, size / 1024);
    screen.print(" KB)\n", white);
    proof {
        reveal_with_fuel(print_lines, 15);
    }
}

/// Print the kernel stack's bottom, top and size.
pub fn cmd_stack(screen: &mut Screen, top: usize, bottom: usize)
    requires
        crate::vga::text_mod::out::on_screen(old(screen).state()),
        bottom <= top,
    ensures
        crate::vga::text_mod::out::on_screen(final(screen).state()),
        final(screen).state() == print_lines(
            old(screen).state(),
            stack_output("Kernel Stack:\n"@, on_black(Color::Cyan), top, bottom),
        ),
{
    stack_report(screen, "Kernel Stack:\n", on_black_code(Color::Cyan), top, bottom);
}

/// Print the user stack's bottom, top and size.
pub fn cmd_userstack(screen: &mut Screen, top: usize, bottom: usize)
    requires
        crate::vga::text_mod::out::on_screen(old(screen).state()),
        bottom <= top,
    ensures
        crate::vga::text_mod::out::on_screen(final(screen).state()),
        final(screen).state() == print_lines(
            old(screen).state(),
            stack_output("User Stack:\n"@, on_black(Color::Magenta), top, bottom),
        ),
{
    stack_report(screen, "User Stack:\n", on_black_code(Color::Magenta), top, bottom);
}

/// Print the reboot notice; the caller then resets the machine.
pub fn cmd_reboot(screen: &mut Screen)
    requires
        crate::vga::text_mod::out::on_screen(old(screen).state()),
    ensures
        crate::vga::text_mod::out::on_screen(final(screen).state()),
        final(screen).state() == print_lines(old(screen).state(), seq![(enc("Rebooting...\n"@), on_black(Color::Yellow))]),
{
    screen.print("Rebooting...\n", on_black_code(Color::Yellow));
    proof {
        reveal_with_fuel(print_lines, 2);
    }
}

/// Print the halt notice; the caller then halts the CPU.
pub fn cmd_halt(screen: &mut Screen)
    requires
        crate::vga::text_mod::out::on_screen(old(screen).state()),
    ensures
        crate::vga::text_mod::out::on_screen(final(screen).state()),
        final(screen).state() == print_lines(
            old(screen).state(),
            seq![(enc("Halting CPU. Press reset to continue.\n"@), on_black(Color::Yellow))],
        ),
{
    screen.print("Halting CPU. Press reset to continue.\n", on_black_code(Color::Yellow));
    proof {
        reveal_with_fuel(print_lines, 2);
    }
}

/// One piece printed in `color` on black.
pub open spec fn piece(text: Seq<char>, color: Color) -> (Seq<u8>, u8) {
    (enc(text), on_black(color))
}

/// How a value is shown: `0x` and 8 hexadecimal digits, in light cyan.
pub open spec fn hex_pieces(v: u32) -> Seq<(Seq<u8>, u8)> {
    seq![piece("0x"@, Color::LightCyan), (hex_text(v as usize), on_black(Color::LightCyan))]
}

/// Print `text` in `color` on black: one more piece of what is printed
/// from `st0`.
pub(crate) fn emit(
    screen: &mut Screen,
    text: &str,
    color: Color,
    Ghost(st0): Ghost<ScreenState>,
    Ghost(lines): Ghost<Seq<(Seq<u8>, u8)>>,
) -> (r: Ghost<Seq<(Seq<u8>, u8)>>)
    requires
        on_screen(old(screen).state()),
        old(screen).state() == print_lines(st0, lines),
    ensures
        on_screen(final(screen).state()),
        r@ == lines.push(piece(text@, color)),
        final(screen).state() == print_lines(st0, r@),
{
    screen.print(text, on_black_code(color));
    proof {
        lemma_print_lines_push(st0, lines, piece(text@, color));
    }
    Ghost(lines.push(piece(text@, color)))
}

/// Print `v` as `0x` and 8 hexadecimal digits: two more pieces of what is
/// printed from `st0`.
pub(crate) fn emit_hex(
    screen: &mut Screen,
    v: u32,
    Ghost(st0): Ghost<ScreenState>,
    Ghost(lines): Ghost<Seq<(Seq<u8>, u8)>>,
) -> (r: Ghost<Seq<(Seq<u8>, u8)>>)
    requires
        on_screen(old(screen).state()),
        old(screen).state() == print_lines(st0, lines),
    ensures
        on_screen(final(screen).state()),
        r@ == lines + hex_pieces(v),
        final(screen).state() == print_lines(st0, r@),
{
    print_hex(screen, v as usize);
    proof {
        lemma_print_lines_push(st0, lines, piece("0x"@, Color::LightCyan));
        lemma_print_lines_push(st0, lines.push(piece("0x"@, Color::LightCyan)), (hex_text(v as usize), on_black(Color::LightCyan)));
        assert(lines + hex_pieces(v) =~= lines.push(piece("0x"@, Color::LightCyan)).push(
            (hex_text(v as usize), on_black(Color::LightCyan)),
        ));
    }
    Ghost(lines + hex_pieces(v))
}

/// Print `n` in decimal, in white: one more piece of what is printed from
/// `st0`.
pub(crate) fn emit_dec(
    screen: &mut Screen,
    n: usize,
    Ghost(st0): Ghost<ScreenState>,
    Ghost(lines): Ghost<Seq<(Seq<u8>, u8)>>,
) -> (r: Ghost<Seq<(Seq<u8>, u8)>>)
    requires
        on_screen(old(screen).state()),
        old(screen).state() == print_lines(st0, lines),
    ensures
        on_screen(final(screen).state()),
        r@ == lines.push(dec_piece(n as nat)),
        final(screen).state() == print_lines(st0, r@),
{
    print_dec(screen, n);
    proof {
        lemma_print_lines_push(st0, lines, dec_piece(n as nat));
    }
    Ghost(lines.push(dec_piece(n as nat)))
}

/// How a number is shown in decimal: its digits, in white.
pub open spec fn dec_piece(n: nat) -> (Seq<u8>, u8) {
    (dec_text(n), on_black(Color::White))
}


/// Number of present entries among the first `n` of a directory.
pub open spec fn count_present(dir: Seq<u32>, n: int) -> nat
    decreases n,
{
    if n <= 0 {
        0
    } else {
        count_present(dir, n - 1) + if crate::paging::page_table::entry_present(dir[n - 1]) { 1nat } else { 0nat }
    }
}

/// The listing line of directory entry `i`: its index and the 4 MB of
/// virtual addresses it covers.
pub open spec fn pde_line(i: int) -> Seq<(Seq<u8>, u8)> {
    seq![piece("  ["@, Color::White), dec_piece(i as nat), piece("]     Mapped        "@, Color::White)]
        + hex_pieces((i * 4194304) as u32) + seq![piece("-"@, Color::White)] + hex_pieces(((i + 1) * 4194304 - 1) as u32)
        + seq![piece("\n"@, Color::White)]
}

/// The listing lines of the present entries from 16 up to `n`.
pub open spec fn mapped_lines(dir: Seq<u32>, n: int) -> Seq<(Seq<u8>, u8)>
    decreases n,
{
    if n <= 16 {
        Seq::empty()
    } else {
        mapped_lines(dir, n - 1) + if crate::paging::page_table::entry_present(dir[n - 1]) {
            pde_line(n - 1)
        } else {
            Seq::empty()
        }
    }
}

/// One line of the frame report: a label, a number of frames and its size
/// in KB.
pub open spec fn frame_count_line(label: Seq<char>, n: nat) -> Seq<(Seq<u8>, u8)> {
    seq![
        piece(label, Color::White),
        dec_piece(n),
        piece(" frames ("@, Color::White),
        dec_piece(n * 4096 / 1024),
        piece(" KB)\n"@, Color::White),
    ]
}

/// The status report of the paging command: frame counts, the page
/// directory (present entries, the identity map, each other present entry)
/// and the heap (region, bytes used and free).
pub open spec fn paging_report(
    total: nat,
    used: nat,
    free: nat,
    dir: Seq<u32>,
    heap_used: nat,
    heap_free: nat,
) -> Seq<(Seq<u8>, u8)> {
    seq![piece("=== Frame Allocator ===\n"@, Color::LightCyan)] + frame_count_line("  Total : "@, total)
        + frame_count_line("  Used  : "@, used) + frame_count_line("  Free  : "@, free) + seq![
        piece("\n=== Page Directory ===\n"@, Color::LightCyan),
        piece("  Present entries: "@, Color::White),
        dec_piece(count_present(dir, 1024)),
        piece(" / 1024\n"@, Color::White),
        piece("  [0-15]  Identity map  0x00000000-0x03FFFFFF\n"@, Color::White),
    ] + mapped_lines(dir, 1024) + heap_status(heap_used, heap_free)
}

/// The heap part of the status report: its initial region, the bytes in
/// use and the bytes free.
pub open spec fn heap_status(heap_used: nat, heap_free: nat) -> Seq<(Seq<u8>, u8)> {
    seq![
        piece("\n=== Kernel Heap ===\n"@, Color::LightCyan),
        piece("  Region: "@, Color::White),
    ] + hex_pieces(0x0400_0000) + seq![piece(" - "@, Color::White)] + hex_pieces(0x0400_FFFF) + seq![
        piece(" ("@, Color::White),
        dec_piece(64),
        piece(" KB)\n"@, Color::White),
        piece("  Used  : "@, Color::White),
        dec_piece(heap_used),
        piece(" bytes\n"@, Color::White),
        piece("  Free  : "@, Color::White),
        dec_piece(heap_free),
        piece(" bytes\n"@, Color::White),
    ]
}

/// Print the heap part of the status report.
fn emit_heap_status(
    screen: &mut Screen,
    heap: &crate::heap::KernelHeap,
    Ghost(st0): Ghost<ScreenState>,
    Ghost(lines): Ghost<Seq<(Seq<u8>, u8)>>,
) -> (r: Ghost<Seq<(Seq<u8>, u8)>>)
    requires
        on_screen(old(screen).state()),
        old(screen).state() == print_lines(st0, lines),
        crate::heap::total_size(heap.blocks()) <= usize::MAX,
    ensures
        on_screen(final(screen).state()),
        r@ == lines + heap_status(heap.allocated(), crate::heap::total_size(heap.blocks())),
        final(screen).state() == print_lines(st0, r@),
{
    let mut g = emit(screen, "\n=== Kernel Heap ===\n", Color::LightCyan, Ghost(st0), Ghost(lines));
    g = emit(screen, "  Region: ", Color::White, Ghost(st0), g);
    g = emit_hex(screen, crate::heap::HEAP_START as u32, Ghost(st0), g);
    g = emit(screen, " - ", Color::White, Ghost(st0), g);
    g = emit_hex(screen, (crate::heap::HEAP_START + crate::heap::HEAP_INIT_SIZE - 1) as u32, Ghost(st0), g);
    g = emit(screen, " (", Color::White, Ghost(st0), g);
    g = emit_dec(screen, crate::heap::HEAP_INIT_SIZE / 1024, Ghost(st0), g);
    g = emit(screen, " KB)\n", Color::White, Ghost(st0), g);
    g = emit(screen, "  Used  : ", Color::White, Ghost(st0), g);
    g = emit_dec(screen, heap.used(), Ghost(st0), g);
    g = emit(screen, " bytes\n", Color::White, Ghost(st0), g);
    g = emit(screen, "  Free  : ", Color::White, Ghost(st0), g);
    g = emit_dec(screen, heap.free(), Ghost(st0), g);
    g = emit(screen, " bytes\n", Color::White, Ghost(st0), g);
    assert(g@ =~= lines + heap_status(heap.allocated(), crate::heap::total_size(heap.blocks())));
    g
}

/// Print one line of the frame report.
fn emit_frame_count(
    screen: &mut Screen,
    label: &str,
    n: usize,
    Ghost(st0): Ghost<ScreenState>,
    Ghost(lines): Ghost<Seq<(Seq<u8>, u8)>>,
) -> (r: Ghost<Seq<(Seq<u8>, u8)>>)
    requires
        on_screen(old(screen).state()),
        old(screen).state() == print_lines(st0, lines),
        n * 4096 <= usize::MAX,
    ensures
        on_screen(final(screen).state()),
        r@ == lines + frame_count_line(label@, n as nat),
        final(screen).state() == print_lines(st0, r@),
{
    let mut g = emit(screen, label, Color::White, Ghost(st0), Ghost(lines));
    g = emit_dec(screen, n, Ghost(st0), g);
    g = emit(screen, " frames (", Color::White, Ghost(st0), g);
    g = emit_dec(screen, n * 4096 / 1024, Ghost(st0), g);
    g = emit(screen, " KB)\n", Color::White, Ghost(st0), g);
    assert(g@ =~= lines + frame_count_line(label@, n as nat));
    g
}

/// Print the present-entry count and the listing of the other present
/// directory entries.
fn emit_directory(
    screen: &mut Screen,
    space: &AddressSpace,
    Ghost(st0): Ghost<ScreenState>,
    Ghost(lines): Ghost<Seq<(Seq<u8>, u8)>>,
) -> (r: Ghost<Seq<(Seq<u8>, u8)>>)
    requires
        on_screen(old(screen).state()),
        old(screen).state() == print_lines(st0, lines),
        space.wf(),
    ensures
        on_screen(final(screen).state()),
        r@ == lines + seq![
            piece("\n=== Page Directory ===\n"@, Color::LightCyan),
            piece("  Present entries: "@, Color::White),
            dec_piece(count_present(space.dir(), 1024)),
            piece(" / 1024\n"@, Color::White),
            piece("  [0-15]  Identity map  0x00000000-0x03FFFFFF\n"@, Color::White),
        ] + mapped_lines(space.dir(), 1024),
        final(screen).state() == print_lines(st0, r@),
{
    let dir = space.directory();
    let mut present_count: usize = 0;
    let mut i: usize = 0;
    while i < 1024
        invariant
            i <= 1024,
            dir.entries@ == space.dir(),
            present_count == count_present(space.dir(), i as int),
            present_count <= i,
        decreases 1024 - i,
    {
        if dir.is_present(i) {
            present_count = present_count + 1;
        }
        i = i + 1;
    }
    let mut g = emit(screen, "\n=== Page Directory ===\n", Color::LightCyan, Ghost(st0), Ghost(lines));
    g = emit(screen, "  Present entries: ", Color::White, Ghost(st0), g);
    g = emit_dec(screen, present_count, Ghost(st0), g);
    g = emit(screen, " / 1024\n", Color::White, Ghost(st0), g);
    g = emit(screen, "  [0-15]  Identity map  0x00000000-0x03FFFFFF\n", Color::White, Ghost(st0), g);
    let ghost head = g@;
    let mut j: usize = 16;
    while j < 1024
        invariant
            16 <= j <= 1024,
            dir.entries@ == space.dir(),
            on_screen(screen.state()),
            g@ == head + mapped_lines(space.dir(), j as int),
            screen.state() == print_lines(st0, g@),
        decreases 1024 - j,
    {
        let ghost before = g@;
        if dir.is_present(j) {
            g = emit(screen, "  [", Color::White, Ghost(st0), g);
            g = emit_dec(screen, j, Ghost(st0), g);
            g = emit(screen, "]     Mapped        ", Color::White, Ghost(st0), g);
            let start: u32 = (j as u32) * 0x40_0000;
            g = emit_hex(screen, start, Ghost(st0), g);
            g = emit(screen, "-", Color::White, Ghost(st0), g);
            g = emit_hex(screen, start + 0x3F_FFFF, Ghost(st0), g);
            g = emit(screen, "\n", Color::White, Ghost(st0), g);
            assert(g@ =~= before + pde_line(j as int));
        }
        assert(mapped_lines(space.dir(), j as int + 1) == mapped_lines(space.dir(), j as int) + if crate::paging::page_table::entry_present(
            space.dir()[j as int],
        ) {
            pde_line(j as int)
        } else {
            Seq::empty()
        });
        assert(g@ =~= head + mapped_lines(space.dir(), j as int + 1));
        j = j + 1;
    }
    assert(head + mapped_lines(space.dir(), 1024) =~= lines + seq![
        piece("\n=== Page Directory ===\n"@, Color::LightCyan),
        piece("  Present entries: "@, Color::White),
        dec_piece(count_present(space.dir(), 1024)),
        piece(" / 1024\n"@, Color::White),
        piece("  [0-15]  Identity map  0x00000000-0x03FFFFFF\n"@, Color::White),
    ] + mapped_lines(space.dir(), 1024));
    g
}


/// The virtual address the live paging test maps, far above the identity
/// map (128 MB).
pub const TEST_VIRT: u32 = 0x0800_0000;

/// The value the live paging test writes through the test page.
pub const TEST_MAGIC: u32 = 0xDEAD_BEEF;

/// What the live paging test prints up to the write: the frame it got
/// (or that none was left), and the mapping of the test page to it.
pub open spec fn map_test_output(frame: Option<u32>) -> Seq<(Seq<u8>, u8)> {
    seq![
        piece("\n=== Live Paging Test ===\n"@, Color::LightCyan),
        piece("  Allocating frame... "@, Color::White),
    ] + match frame {
        Some(f) => seq![piece("OK ("@, Color::LightGreen)] + hex_pieces(f) + seq![
            piece(")\n"@, Color::LightGreen),
            piece("  Mapping "@, Color::White),
        ] + hex_pieces(TEST_VIRT) + seq![piece(" -> "@, Color::White)] + hex_pieces(f) + seq![
            piece(" ... "@, Color::White),
            piece("OK\n"@, Color::LightGreen),
            piece("  Writing 0xDEADBEEF... "@, Color::White),
        ],
        None => seq![piece("FAIL (out of memory)\n"@, Color::Red)],
    }
}

/// Print the paging status: frame counts, the page directory and the heap.
fn emit_paging_status(
    screen: &mut Screen,
    frames: &crate::paging::frame_allocator::FrameAllocator,
    space: &AddressSpace,
    heap: &crate::heap::KernelHeap,
    Ghost(st0): Ghost<ScreenState>,
) -> (r: Ghost<Seq<(Seq<u8>, u8)>>)
    requires
        on_screen(old(screen).state()),
        old(screen).state() == st0,
        frames.wf(),
        space.wf(),
        frames.used() * 4096 <= usize::MAX,
        crate::heap::total_size(heap.blocks()) <= usize::MAX,
    ensures
        on_screen(final(screen).state()),
        r@ == paging_report(
            frames.total(),
            frames.used(),
            if frames.used() <= frames.total() { (frames.total() - frames.used()) as nat } else { 0 },
            space.dir(),
            heap.allocated(),
            crate::heap::total_size(heap.blocks()),
        ),
        final(screen).state() == print_lines(st0, r@),
{
    let mut g = emit(screen, "=== Frame Allocator ===\n", Color::LightCyan, Ghost(st0), Ghost(Seq::empty()));
    let total = frames.total_count();
    let used = frames.used_count();
    let free = frames.free_count();
    g = emit_frame_count(screen, "  Total : ", total, Ghost(st0), g);
    g = emit_frame_count(screen, "  Used  : ", used, Ghost(st0), g);
    g = emit_frame_count(screen, "  Free  : ", free, Ghost(st0), g);
    g = emit_directory(screen, space, Ghost(st0), g);
    g = emit_heap_status(screen, heap, Ghost(st0), g);
    assert(g@ =~= paging_report(
        frames.total(),
        frames.used(),
        if frames.used() <= frames.total() { (frames.total() - frames.used()) as nat } else { 0 },
        space.dir(),
        heap.allocated(),
        crate::heap::total_size(heap.blocks()),
    ));
    g
}

/// What the start of the live test does to the address space and the
/// frames when it takes frame `idx`: the frame is taken from `f0`, then the
/// test page is mapped to it (writable, supervisor only), a fresh table
/// taking the next frame when the directory entry is empty.
pub open spec fn map_test_effect(
    s0: AddressSpace,
    s1: AddressSpace,
    f0: crate::paging::frame_allocator::FrameAllocator,
    f1: crate::paging::frame_allocator::FrameAllocator,
    idx: int,
) -> bool {
    exists|mid: crate::paging::frame_allocator::FrameAllocator|
        #[trigger] f0.took_frame(&mid, idx) && mid.wf() && (crate::heap::table_missing(s0, TEST_VIRT as int)
            ==> mid.next_alloc_index() is Some) && crate::paging::mapper::map_page_effect(
            s0,
            s1,
            mid,
            f1,
            TEST_VIRT,
            (idx * 4096) as u32,
            true,
            false,
        )
}

/// What the end of the live test does to the address space and the frames:
/// the test page is unmapped (its table reclaimed when left empty), then
/// `frame` is freed.
pub open spec fn check_effect(
    s0: AddressSpace,
    s1: AddressSpace,
    f0: crate::paging::frame_allocator::FrameAllocator,
    f1: crate::paging::frame_allocator::FrameAllocator,
    frame: u32,
) -> bool {
    exists|mid: crate::paging::frame_allocator::FrameAllocator|
        #[trigger] crate::paging::mapper::unmap_page_effect(s0, s1, f0, mid, TEST_VIRT) && mid.wf() && mid.freed(
            &f1,
            frame,
        )
}

/// Print the start of the live test: take a frame and map the test page
/// to it.
fn emit_map_test(
    screen: &mut Screen,
    frames: &mut crate::paging::frame_allocator::FrameAllocator,
    space: &mut AddressSpace,
    Ghost(st0): Ghost<ScreenState>,
    Ghost(lines): Ghost<Seq<(Seq<u8>, u8)>>,
) -> (r: (Option<u32>, Ghost<Seq<(Seq<u8>, u8)>>))
    requires
        on_screen(old(screen).state()),
        old(screen).state() == print_lines(st0, lines),
        old(frames).wf(),
        old(space).wf(),
        old(frames).alloc_in_bounds(),
        !(crate::heap::table_missing(*old(space), TEST_VIRT as int) && old(frames).free_frames() == 1),
    ensures
        on_screen(final(screen).state()),
        final(frames).wf(),
        final(space).wf(),
        final(frames).total() == old(frames).total(),
        r.1@ == lines + map_test_output(r.0),
        final(screen).state() == print_lines(st0, r.1@),
        match old(frames).next_alloc_index() {
            Some(idx) => {
                &&& r.0 == Some((idx * 4096) as u32)
                &&& old(frames).lowest_free_in(idx, 0, old(frames).total() as int)
                &&& final(frames).used_view()[idx]
                &&& map_test_effect(*old(space), *final(space), *old(frames), *final(frames), idx)
                &&& forall|w: u32| #[trigger] final(space).translate(w) == if crate::paging::mapper::same_page(w, TEST_VIRT) {
                    Some(((idx * 4096) as u32) | (w & 0xFFFu32))
                } else {
                    old(space).translate(w)
                }
            },
            None => r.0 is None && *final(frames) == *old(frames) && *final(space) == *old(space),
        },
{
    let ghost f0 = *frames;
    let ghost s0 = *space;
    let mut g = emit(screen, "\n=== Live Paging Test ===\n", Color::LightCyan, Ghost(st0), Ghost(lines));
    g = emit(screen, "  Allocating frame... ", Color::White, Ghost(st0), g);
    proof {
        crate::paging::frame_allocator::law_alloc_picks_free_frame(f0);
        if f0.has_free_in(0, f0.total() as int) {
            crate::paging::frame_allocator::lemma_free_frames_positive(f0);
        }
    }
    let frame = match frames.alloc_frame() {
        Some(addr) => addr,
        None => {
            g = emit(screen, "FAIL (out of memory)\n", Color::Red, Ghost(st0), g);
            assert(g@ =~= lines + map_test_output(None));
            return (None, g);
        },
    };
    g = emit(screen, "OK (", Color::LightGreen, Ghost(st0), g);
    g = emit_hex(screen, frame, Ghost(st0), g);
    g = emit(screen, ")\n", Color::LightGreen, Ghost(st0), g);
    g = emit(screen, "  Mapping ", Color::White, Ghost(st0), g);
    g = emit_hex(screen, TEST_VIRT, Ghost(st0), g);
    g = emit(screen, " -> ", Color::White, Ghost(st0), g);
    g = emit_hex(screen, frame, Ghost(st0), g);
    g = emit(screen, " ... ", Color::White, Ghost(st0), g);
    let ghost fa = *frames;
    let ghost idx = f0.next_alloc_index()->0;
    proof {
        crate::paging::frame_allocator::lemma_alloc_counts(f0, fa, idx);
        if crate::heap::table_missing(s0, TEST_VIRT as int) {
            crate::paging::frame_allocator::lemma_free_frame_exists(fa);
            crate::paging::frame_allocator::law_alloc_picks_free_frame(fa);
        }
        crate::paging::mapper::lemma_aligned_page_pub(frame);
    }
    space.map_page(frames, TEST_VIRT, frame, true, false);
    proof {
        if crate::heap::table_missing(s0, TEST_VIRT as int) {
            let idx2 = fa.next_alloc_index()->0;
            assert(frames.used_view() == fa.used_view().update(idx2, true));
        }
    }
    proof {
        assert(f0.took_frame(&fa, idx) && fa.wf());
    }
    g = emit(screen, "OK\n", Color::LightGreen, Ghost(st0), g);
    g = emit(screen, "  Writing 0xDEADBEEF... ", Color::White, Ghost(st0), g);
    assert(g@ =~= lines + map_test_output(Some(frame)));
    (Some(frame), g)
}

/// Show the paging status (frames, page directory, heap), then start the
/// live test: take a frame and map the test page to it, writable and
/// supervisor only. Returns the frame; `None`, after saying so, when no
/// frame is left. The caller then writes `TEST_MAGIC` through the test page,
/// reads it back and finishes with `cmd_paging_check`.
pub fn cmd_paging(
    screen: &mut Screen,
    frames: &mut crate::paging::frame_allocator::FrameAllocator,
    space: &mut AddressSpace,
    heap: &crate::heap::KernelHeap,
) -> (r: Option<u32>)
    requires
        on_screen(old(screen).state()),
        old(frames).wf(),
        old(space).wf(),
        old(frames).used() * 4096 <= usize::MAX,
        crate::heap::total_size(heap.blocks()) <= usize::MAX,
        old(frames).alloc_in_bounds(),
        !(crate::heap::table_missing(*old(space), TEST_VIRT as int) && old(frames).free_frames() == 1),
    ensures
        on_screen(final(screen).state()),
        final(frames).wf(),
        final(space).wf(),
        final(frames).total() == old(frames).total(),
        final(screen).state() == print_lines(
            old(screen).state(),
            paging_report(
                old(frames).total(),
                old(frames).used(),
                if old(frames).used() <= old(frames).total() { (old(frames).total() - old(frames).used()) as nat } else { 0 },
                old(space).dir(),
                heap.allocated(),
                crate::heap::total_size(heap.blocks()),
            ) + map_test_output(r),
        ),
        match old(frames).next_alloc_index() {
            Some(idx) => {
                &&& r == Some((idx * 4096) as u32)
                &&& old(frames).lowest_free_in(idx, 0, old(frames).total() as int)
                &&& final(frames).used_view()[idx]
                &&& map_test_effect(*old(space), *final(space), *old(frames), *final(frames), idx)
                &&& forall|w: u32| #[trigger] final(space).translate(w) == if crate::paging::mapper::same_page(w, TEST_VIRT) {
                    Some(((idx * 4096) as u32) | (w & 0xFFFu32))
                } else {
                    old(space).translate(w)
                }
            },
            None => r is None && *final(frames) == *old(frames) && *final(space) == *old(space),
        },
{
    let ghost st0 = screen.state();
    let g = emit_paging_status(screen, frames, space, heap, Ghost(st0));
    let (frame, _) = emit_map_test(screen, frames, space, Ghost(st0), g);
    frame
}


/// What the live test prints after the write: the value read back and
/// whether it matches, the translation of the test page, then the unmapping
/// and the freeing of the frame.
pub open spec fn check_output(readback: u32, translated: Option<u32>) -> Seq<(Seq<u8>, u8)> {
    seq![piece("OK\n"@, Color::LightGreen), piece("  Reading back... "@, Color::White)] + hex_pieces(readback) + seq![
        if readback == TEST_MAGIC { piece(" OK!\n"@, Color::LightGreen) } else { piece(" MISMATCH!\n"@, Color::Red) },
        piece("  Translate "@, Color::White),
    ] + hex_pieces(TEST_VIRT) + seq![piece(" -> "@, Color::White)] + match translated {
        Some(p) => hex_pieces(p) + seq![piece(" OK\n"@, Color::LightGreen)],
        None => seq![piece("NONE (bug!)\n"@, Color::Red)],
    } + seq![
        piece("  Unmapping... "@, Color::White),
        piece("OK\n"@, Color::LightGreen),
        piece("  Freeing frame... "@, Color::White),
        piece("OK\n"@, Color::LightGreen),
    ]
}

/// Finish the live test: report the value read back through the test page
/// (`readback`), the test page's translation, then unmap the test page and
/// free `frame`.
pub fn cmd_paging_check(
    screen: &mut Screen,
    frames: &mut crate::paging::frame_allocator::FrameAllocator,
    space: &mut AddressSpace,
    frame: u32,
    readback: u32,
)
    requires
        on_screen(old(screen).state()),
        old(frames).wf(),
        old(space).wf(),
    ensures
        on_screen(final(screen).state()),
        final(frames).wf(),
        final(space).wf(),
        final(frames).total() == old(frames).total(),
        final(screen).state() == print_lines(old(screen).state(), check_output(readback, old(space).translate(TEST_VIRT))),
        forall|w: u32| #[trigger] final(space).translate(w) == if crate::paging::mapper::same_page(w, TEST_VIRT) {
            None
        } else {
            old(space).translate(w)
        },
        frame as int / 4096 < old(frames).total() ==> !final(frames).used_view()[frame as int / 4096],
        check_effect(*old(space), *final(space), *old(frames), *final(frames), frame),
{
    let ghost st0 = screen.state();
    let mut g = emit(screen, "OK\n", Color::LightGreen, Ghost(st0), Ghost(Seq::empty()));
    g = emit(screen, "  Reading back... ", Color::White, Ghost(st0), g);
    g = emit_hex(screen, readback, Ghost(st0), g);
    if readback == TEST_MAGIC {
        g = emit(screen, " OK!\n", Color::LightGreen, Ghost(st0), g);
    } else {
        g = emit(screen, " MISMATCH!\n", Color::Red, Ghost(st0), g);
    }
    g = emit(screen, "  Translate ", Color::White, Ghost(st0), g);
    g = emit_hex(screen, TEST_VIRT, Ghost(st0), g);
    g = emit(screen, " -> ", Color::White, Ghost(st0), g);
    let translated = space.get_physical_address(TEST_VIRT);
    match translated {
        Some(phys) => {
            g = emit_hex(screen, phys, Ghost(st0), g);
            g = emit(screen, " OK\n", Color::LightGreen, Ghost(st0), g);
        },
        None => {
            g = emit(screen, "NONE (bug!)\n", Color::Red, Ghost(st0), g);
        },
    }
    g = emit(screen, "  Unmapping... ", Color::White, Ghost(st0), g);
    space.unmap_page(frames, TEST_VIRT);
    let ghost mid = *frames;
    g = emit(screen, "OK\n", Color::LightGreen, Ghost(st0), g);
    g = emit(screen, "  Freeing frame... ", Color::White, Ghost(st0), g);
    frames.free_frame(frame);
    assert(mid.freed(frames, frame));
    g = emit(screen, "OK\n", Color::LightGreen, Ghost(st0), g);
    assert(g@ =~= check_output(readback, translated));
}

/// What the heap part of the paging command prints: the bytes in use before,
/// a boxed value and a vector's length made in between, the bytes in use
/// after, and the closing line.
pub open spec fn heap_test_output(used_before: nat, boxed: nat, vec_len: nat, used_after: nat) -> Seq<(Seq<u8>, u8)> {
    seq![
        piece("\n=== Heap Alloc Test ===\n"@, Color::LightCyan),
        piece("  Heap used before: "@, Color::White),
        dec_piece(used_before),
        piece(" bytes\n"@, Color::White),
        piece("  Box::new(42u32)... "@, Color::White),
        piece("OK (value = "@, Color::LightGreen),
        dec_piece(boxed),
        piece(")\n"@, Color::LightGreen),
        piece("  Vec push 1,2,3... "@, Color::White),
        piece("OK (len = "@, Color::LightGreen),
        dec_piece(vec_len),
        piece(")\n"@, Color::LightGreen),
        piece("  Heap used after : "@, Color::White),
        dec_piece(used_after),
        piece(" bytes\n"@, Color::White),
        piece("\n"@, Color::White),
        piece("All paging tests passed!\n"@, Color::Yellow),
    ]
}

/// Report the heap allocation test: the heap's bytes in use before and
/// after a box of `boxed` and a vector of `vec_len` items were made.
pub fn cmd_paging_heap_test(screen: &mut Screen, used_before: usize, boxed: usize, vec_len: usize, used_after: usize)
    requires
        on_screen(old(screen).state()),
    ensures
        on_screen(final(screen).state()),
        final(screen).state() == print_lines(
            old(screen).state(),
            heap_test_output(used_before as nat, boxed as nat, vec_len as nat, used_after as nat),
        ),
{
    let ghost st0 = screen.state();
    let mut g = emit(screen, "\n=== Heap Alloc Test ===\n", Color::LightCyan, Ghost(st0), Ghost(Seq::empty()));
    g = emit(screen, "  Heap used before: ", Color::White, Ghost(st0), g);
    g = emit_dec(screen, used_before, Ghost(st0), g);
    g = emit(screen, " bytes\n", Color::White, Ghost(st0), g);
    g = emit(screen, "  Box::new(42u32)... ", Color::White, Ghost(st0), g);
    g = emit(screen, "OK (value = ", Color::LightGreen, Ghost(st0), g);
    g = emit_dec(screen, boxed, Ghost(st0), g);
    g = emit(screen, ")\n", Color::LightGreen, Ghost(st0), g);
    g = emit(screen, "  Vec push 1,2,3... ", Color::White, Ghost(st0), g);
    g = emit(screen, "OK (len = ", Color::LightGreen, Ghost(st0), g);
    g = emit_dec(screen, vec_len, Ghost(st0), g);
    g = emit(screen, ")\n", Color::LightGreen, Ghost(st0), g);
    g = emit(screen, "  Heap used after : ", Color::White, Ghost(st0), g);
    g = emit_dec(screen, used_after, Ghost(st0), g);
    g = emit(screen, " bytes\n", Color::White, Ghost(st0), g);
    g = emit(screen, "\n", Color::White, Ghost(st0), g);
    g = emit(screen, "All paging tests passed!\n", Color::Yellow, Ghost(st0), g);
    assert(g@ =~= heap_test_output(used_before as nat, boxed as nat, vec_len as nat, used_after as nat));
}


/// The live paging test, run while the test page's directory entry is
/// empty, leaves the page directory, every page table, and the frame
/// allocator's bitmap and used counter as they were before it: the start
/// of the test takes frame `idx` and maps the test page to it, the end
/// unmaps the page and frees that frame.
pub proof fn law_paging_test_restores(
    s0: AddressSpace,
    s1: AddressSpace,
    s2: AddressSpace,
    f0: crate::paging::frame_allocator::FrameAllocator,
    f1: crate::paging::frame_allocator::FrameAllocator,
    f2: crate::paging::frame_allocator::FrameAllocator,
    idx: int,
)
    requires
        s0.wf(),
        f0.wf(),
        s0.dir()[crate::paging::mapper::pd_index(TEST_VIRT)] == 0u32,
        f0.next_alloc_index() == Some(idx),
        map_test_effect(s0, s1, f0, f1, idx),
        check_effect(s1, s2, f1, f2, (idx * 4096) as u32),
    ensures
        s2.dir() == s0.dir(),
        forall|i: int| 0 <= i < 1024 ==> #[trigger] s2.table(i) == s0.table(i),
        f2.used_view() == f0.used_view(),
        f2.used() == f0.used(),
        f2.total() == f0.total(),
{
    let m1 = choose|mid: crate::paging::frame_allocator::FrameAllocator|
        #[trigger] f0.took_frame(&mid, idx) && mid.wf() && (crate::heap::table_missing(s0, TEST_VIRT as int)
            ==> mid.next_alloc_index() is Some) && crate::paging::mapper::map_page_effect(
            s0,
            s1,
            mid,
            f1,
            TEST_VIRT,
            (idx * 4096) as u32,
            true,
            false,
        );
    let m2 = choose|mid: crate::paging::frame_allocator::FrameAllocator|
        #[trigger] crate::paging::mapper::unmap_page_effect(s1, s2, f1, mid, TEST_VIRT) && mid.wf() && mid.freed(
            &f2,
            (idx * 4096) as u32,
        );
    crate::paging::mapper::lemma_pd_div(TEST_VIRT);
    crate::paging::mapper::lemma_zero_not_present();
    assert(crate::heap::table_missing(s0, TEST_VIRT as int));
    crate::paging::mapper::law_unmap_restores_tables_and_frames(
        s0,
        s1,
        s2,
        m1,
        f1,
        m2,
        TEST_VIRT,
        (idx * 4096) as u32,
        true,
        false,
    );
    crate::paging::frame_allocator::law_alloc_picks_free_frame(f0);
    crate::paging::frame_allocator::lemma_alloc_counts(f0, m1, idx);
    assert(0 <= idx * 4096 < 0x1_0000_0000);
    assert(((idx * 4096) as u32) as int / 4096 == idx);
    assert(f2.used_view() =~= f0.used_view());
}

} // verus!
