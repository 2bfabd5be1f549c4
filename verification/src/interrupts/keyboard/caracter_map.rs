//! Scancode set 1 to characters: the US layout without and with shift.
use vstd::prelude::*;

verus! {

/// The character of a pressed key without shift (`None` for keys without one).
pub open spec fn lower_map(code: u8) -> Option<char> {
    match code {
        0x02u8 => Some('1'),
        0x03u8 => Some('2'),
        0x04u8 => Some('3'),
        0x05u8 => Some('4'),
        0x06u8 => Some('5'),
        0x07u8 => Some('6'),
        0x08u8 => Some('7'),
        0x09u8 => Some('8'),
        0x0Au8 => Some('9'),
        0x0Bu8 => Some('0'),
        0x0Cu8 => Some('-'),
        0x0Du8 => Some('+'),
        0x35u8 => Some('/'),
        0x37u8 => Some('*'),
        0x4Au8 => Some('-'),
        0x4Eu8 => Some('+'),
        0x10u8 => Some('q'),
        0x11u8 => Some('w'),
        0x12u8 => Some('e'),
        0x13u8 => Some('r'),
        0x14u8 => Some('t'),
        0x15u8 => Some('y'),
        0x16u8 => Some('u'),
        0x17u8 => Some('i'),
        0x18u8 => Some('o'),
        0x19u8 => Some('p'),
        0x1Eu8 => Some('a'),
        0x1Fu8 => Some('s'),
        0x20u8 => Some('d'),
        0x21u8 => Some('f'),
        0x22u8 => Some('g'),
        0x23u8 => Some('h'),
        0x24u8 => Some('j'),
        0x25u8 => Some('k'),
        0x26u8 => Some('l'),
        0x2Cu8 => Some('z'),
        0x2Du8 => Some('x'),
        0x2Eu8 => Some('c'),
        0x2Fu8 => Some('v'),
        0x30u8 => Some('b'),
        0x31u8 => Some('n'),
        0x32u8 => Some('m'),
        0x39u8 => Some(' '),
        _ => None,
    }
}

/// The character of a pressed key with shift (`None` for keys without one).
pub open spec fn upper_map(code: u8) -> Option<char> {
    match code {
        0x02u8 => Some('1'),
        0x03u8 => Some('2'),
        0x04u8 => Some('3'),
        0x05u8 => Some('4'),
        0x06u8 => Some('5'),
        0x07u8 => Some('6'),
        0x08u8 => Some('7'),
        0x09u8 => Some('8'),
        0x0Au8 => Some('9'),
        0x0Bu8 => Some('0'),
        0x0Cu8 => Some('_'),
        0x0Du8 => Some('+'),
        0x35u8 => Some('?'),
        0x37u8 => Some('*'),
        0x4Au8 => Some('-'),
        0x4Eu8 => Some('+'),
        0x10u8 => Some('Q'),
        0x11u8 => Some('W'),
        0x12u8 => Some('E'),
        0x13u8 => Some('R'),
        0x14u8 => Some('T'),
        0x15u8 => Some('Y'),
        0x16u8 => Some('U'),
        0x17u8 => Some('I'),
        0x18u8 => Some('O'),
        0x19u8 => Some('P'),
        0x1Eu8 => Some('A'),
        0x1Fu8 => Some('S'),
        0x20u8 => Some('D'),
        0x21u8 => Some('F'),
        0x22u8 => Some('G'),
        0x23u8 => Some('H'),
        0x24u8 => Some('J'),
        0x25u8 => Some('K'),
        0x26u8 => Some('L'),
        0x2Cu8 => Some('Z'),
        0x2Du8 => Some('X'),
        0x2Eu8 => Some('C'),
        0x2Fu8 => Some('V'),
        0x30u8 => Some('B'),
        0x31u8 => Some('N'),
        0x32u8 => Some('M'),
        0x39u8 => Some(' '),
        _ => None,
    }
}

/// The character of the key with scancode `code`, without shift.
pub fn lower_character(code: u8) -> (r: Option<char>)
    ensures
        r == lower_map(code),
{
    match code {
        0x02u8 => Some('1'),
        0x03u8 => Some('2'),
        0x04u8 => Some('3'),
        0x05u8 => Some('4'),
        0x06u8 => Some('5'),
        0x07u8 => Some('6'),
        0x08u8 => Some('7'),
        0x09u8 => Some('8'),
        0x0Au8 => Some('9'),
        0x0Bu8 => Some('0'),
        0x0Cu8 => Some('-'),
        0x0Du8 => Some('+'),
        0x35u8 => Some('/'),
        0x37u8 => Some('*'),
        0x4Au8 => Some('-'),
        0x4Eu8 => Some('+'),
        0x10u8 => Some('q'),
        0x11u8 => Some('w'),
        0x12u8 => Some('e'),
        0x13u8 => Some('r'),
        0x14u8 => Some('t'),
        0x15u8 => Some('y'),
        0x16u8 => Some('u'),
        0x17u8 => Some('i'),
        0x18u8 => Some('o'),
        0x19u8 => Some('p'),
        0x1Eu8 => Some('a'),
        0x1Fu8 => Some('s'),
        0x20u8 => Some('d'),
        0x21u8 => Some('f'),
        0x22u8 => Some('g'),
        0x23u8 => Some('h'),
        0x24u8 => Some('j'),
        0x25u8 => Some('k'),
        0x26u8 => Some('l'),
        0x2Cu8 => Some('z'),
        0x2Du8 => Some('x'),
        0x2Eu8 => Some('c'),
        0x2Fu8 => Some('v'),
        0x30u8 => Some('b'),
        0x31u8 => Some('n'),
        0x32u8 => Some('m'),
        0x39u8 => Some(' '),
        _ => None,
    }
}

/// The character of the key with scancode `code`, with shift.
pub fn upper_character(code: u8) -> (r: Option<char>)
    ensures
        r == upper_map(code),
{
    match code {
        0x02u8 => Some('1'),
        0x03u8 => Some('2'),
        0x04u8 => Some('3'),
        0x05u8 => Some('4'),
        0x06u8 => Some('5'),
        0x07u8 => Some('6'),
        0x08u8 => Some('7'),
        0x09u8 => Some('8'),
        0x0Au8 => Some('9'),
        0x0Bu8 => Some('0'),
        0x0Cu8 => Some('_'),
        0x0Du8 => Some('+'),
        0x35u8 => Some('?'),
        0x37u8 => Some('*'),
        0x4Au8 => Some('-'),
        0x4Eu8 => Some('+'),
        0x10u8 => Some('Q'),
        0x11u8 => Some('W'),
        0x12u8 => Some('E'),
        0x13u8 => Some('R'),
        0x14u8 => Some('T'),
        0x15u8 => Some('Y'),
        0x16u8 => Some('U'),
        0x17u8 => Some('I'),
        0x18u8 => Some('O'),
        0x19u8 => Some('P'),
        0x1Eu8 => Some('A'),
        0x1Fu8 => Some('S'),
        0x20u8 => Some('D'),
        0x21u8 => Some('F'),
        0x22u8 => Some('G'),
        0x23u8 => Some('H'),
        0x24u8 => Some('J'),
        0x25u8 => Some('K'),
        0x26u8 => Some('L'),
        0x2Cu8 => Some('Z'),
        0x2Du8 => Some('X'),
        0x2Eu8 => Some('C'),
        0x2Fu8 => Some('V'),
        0x30u8 => Some('B'),
        0x31u8 => Some('N'),
        0x32u8 => Some('M'),
        0x39u8 => Some(' '),
        _ => None,
    }
}


/// The digit row of a US keyboard, left to right.
pub open spec fn us_digit_row() -> Seq<char> {
    seq!['1', '2', '3', '4', '5', '6', '7', '8', '9', '0']
}

/// The top letter row of a US keyboard, left to right.
pub open spec fn us_top_row() -> Seq<char> {
    seq!['q', 'w', 'e', 'r', 't', 'y', 'u', 'i', 'o', 'p']
}

/// The middle letter row of a US keyboard, left to right.
pub open spec fn us_home_row() -> Seq<char> {
    seq!['a', 's', 'd', 'f', 'g', 'h', 'j', 'k', 'l']
}

/// The bottom letter row of a US keyboard, left to right.
pub open spec fn us_bottom_row() -> Seq<char> {
    seq!['z', 'x', 'c', 'v', 'b', 'n', 'm']
}

/// The keys follow the US layout of scancode set 1: the digit row from
/// 0x02, the letter rows from 0x10 (`qwertyuiop`), 0x1E (`asdfghjkl`) and
/// 0x2C (`zxcvbnm`), the space bar at 0x39; with shift a letter key gives
/// its capital and a digit key its digit.
pub proof fn law_us_layout()
    ensures
        forall|i: int| 0 <= i < 10 ==> lower_map((0x02 + i) as u8) == Some(
            #[trigger] us_digit_row()[i],
        ),
        forall|i: int| 0 <= i < 10 ==> lower_map((0x10 + i) as u8) == Some(
            #[trigger] us_top_row()[i],
        ),
        forall|i: int| 0 <= i < 9 ==> lower_map((0x1E + i) as u8) == Some(
            #[trigger] us_home_row()[i],
        ),
        forall|i: int| 0 <= i < 7 ==> lower_map((0x2C + i) as u8) == Some(
            #[trigger] us_bottom_row()[i],
        ),
        lower_map(0x39) == Some(' '),
        lower_map(0x0C) == Some('-') && upper_map(0x0C) == Some('_'),
        lower_map(0x0D) == Some('+') && upper_map(0x0D) == Some('+'),
        lower_map(0x35) == Some('/') && upper_map(0x35) == Some('?'),
        lower_map(0x37) == Some('*') && upper_map(0x37) == Some('*'),
        lower_map(0x4A) == Some('-') && upper_map(0x4A) == Some('-'),
        lower_map(0x4E) == Some('+') && upper_map(0x4E) == Some('+'),
        upper_map(0x39) == Some(' '),
        forall|code: u8| #![trigger lower_map(code)] #![trigger upper_map(code)]
            (lower_map(code) is Some <==> upper_map(code) is Some) && (lower_map(code) is Some ==> (0x02 <= code <= 0x0D
                || 0x10 <= code <= 0x19 || 0x1E <= code <= 0x26 || 0x2C <= code <= 0x32 || code == 0x35 || code == 0x37
                || code == 0x39 || code == 0x4A || code == 0x4E)),
        forall|code: u8| #![trigger lower_map(code)]
            lower_map(code) is Some && 'a' <= lower_map(code)->0 <= 'z' ==> upper_map(code) == Some(
                ((lower_map(code)->0 as u32) - 32) as char,
            ),
        forall|code: u8| #![trigger lower_map(code)]
            lower_map(code) is Some && '0' <= lower_map(code)->0 <= '9' ==> upper_map(code) == lower_map(code),
{
    assert forall|i: int| 0 <= i < 10 implies lower_map((0x02 + i) as u8) == Some(
        #[trigger] us_digit_row()[i],
    ) by {
        assert(i == 0 || i == 1 || i == 2 || i == 3 || i == 4 || i == 5 || i == 6 || i == 7 || i == 8 || i == 9);
    }
    assert forall|i: int| 0 <= i < 10 implies lower_map((0x10 + i) as u8) == Some(
        #[trigger] us_top_row()[i],
    ) by {
        assert(i == 0 || i == 1 || i == 2 || i == 3 || i == 4 || i == 5 || i == 6 || i == 7 || i == 8 || i == 9);
    }
    assert forall|i: int| 0 <= i < 9 implies lower_map((0x1E + i) as u8) == Some(
        #[trigger] us_home_row()[i],
    ) by {
        assert(i == 0 || i == 1 || i == 2 || i == 3 || i == 4 || i == 5 || i == 6 || i == 7 || i == 8);
    }
    assert forall|i: int| 0 <= i < 7 implies lower_map((0x2C + i) as u8) == Some(
        #[trigger] us_bottom_row()[i],
    ) by {
        assert(i == 0 || i == 1 || i == 2 || i == 3 || i == 4 || i == 5 || i == 6);
    }
}

} // verus!
