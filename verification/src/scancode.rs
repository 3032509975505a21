//! PS/2 Scan Code Set 2: the make codes of the keys that type text.
use vstd::prelude::*;

verus! {

/// Prefix byte of a break code (key released): the next frame names the key.
pub const BREAK_PREFIX: u8 = 0xF0;

/// Prefix byte of an extended key code: the next frame names the key.
pub const EXTENDED_PREFIX: u8 = 0xE0;

/// The character that a Set 2 make code types, if it is one of the keys mapped
/// here (letters, digits, space, enter, backspace, tab and escape).
pub open spec fn set2_char(code: u8) -> Option<char> {
    match code {
        0x1C => Some('a'), 0x32 => Some('b'), 0x21 => Some('c'), 0x23 => Some('d'),
        0x24 => Some('e'), 0x2B => Some('f'), 0x34 => Some('g'), 0x33 => Some('h'),
        0x43 => Some('i'), 0x3B => Some('j'), 0x42 => Some('k'), 0x4B => Some('l'),
        0x3A => Some('m'), 0x31 => Some('n'), 0x44 => Some('o'), 0x4D => Some('p'),
        0x15 => Some('q'), 0x2D => Some('r'), 0x1B => Some('s'), 0x2C => Some('t'),
        0x3C => Some('u'), 0x2A => Some('v'), 0x1D => Some('w'), 0x22 => Some('x'),
        0x35 => Some('y'), 0x1A => Some('z'),
        0x45 => Some('0'), 0x16 => Some('1'), 0x1E => Some('2'), 0x26 => Some('3'),
        0x25 => Some('4'), 0x2E => Some('5'), 0x36 => Some('6'), 0x3D => Some('7'),
        0x3E => Some('8'), 0x46 => Some('9'),
        0x29 => Some(' '), 0x5A => Some('\n'), 0x66 => Some('\u{8}'), 0x0D => Some('\t'),
        0x76 => Some('\u{1b}'),
        _ => None,
    }
}

/// Maps a Set 2 make code to the character it types, or `None` for a code
/// that is not mapped.
pub fn decode_set2(scancode: u8) -> (c: Option<char>)
    ensures
        c == set2_char(scancode),
{
    match scancode {
        0x1C => Some('a'), 0x32 => Some('b'), 0x21 => Some('c'), 0x23 => Some('d'),
        0x24 => Some('e'), 0x2B => Some('f'), 0x34 => Some('g'), 0x33 => Some('h'),
        0x43 => Some('i'), 0x3B => Some('j'), 0x42 => Some('k'), 0x4B => Some('l'),
        0x3A => Some('m'), 0x31 => Some('n'), 0x44 => Some('o'), 0x4D => Some('p'),
        0x15 => Some('q'), 0x2D => Some('r'), 0x1B => Some('s'), 0x2C => Some('t'),
        0x3C => Some('u'), 0x2A => Some('v'), 0x1D => Some('w'), 0x22 => Some('x'),
        0x35 => Some('y'), 0x1A => Some('z'),
        0x45 => Some('0'), 0x16 => Some('1'), 0x1E => Some('2'), 0x26 => Some('3'),
        0x25 => Some('4'), 0x2E => Some('5'), 0x36 => Some('6'), 0x3D => Some('7'),
        0x3E => Some('8'), 0x46 => Some('9'),
        0x29 => Some(' '), 0x5A => Some('\n'), 0x66 => Some('\u{8}'), 0x0D => Some('\t'),
        0x76 => Some('\u{1b}'),
        _ => None,
    }
}

/// The key map: each key types the character printed on it. Letters
/// a to z, digits 0 to 9, then space, enter (newline), backspace, tab and
/// escape; every other code types nothing.
pub proof fn law_set2_keymap(code: u8)
    ensures
        set2_char(0x1C) == Some('a'),
        set2_char(0x32) == Some('b'),
        set2_char(0x21) == Some('c'),
        set2_char(0x23) == Some('d'),
        set2_char(0x24) == Some('e'),
        set2_char(0x2B) == Some('f'),
        set2_char(0x34) == Some('g'),
        set2_char(0x33) == Some('h'),
        set2_char(0x43) == Some('i'),
        set2_char(0x3B) == Some('j'),
        set2_char(0x42) == Some('k'),
        set2_char(0x4B) == Some('l'),
        set2_char(0x3A) == Some('m'),
        set2_char(0x31) == Some('n'),
        set2_char(0x44) == Some('o'),
        set2_char(0x4D) == Some('p'),
        set2_char(0x15) == Some('q'),
        set2_char(0x2D) == Some('r'),
        set2_char(0x1B) == Some('s'),
        set2_char(0x2C) == Some('t'),
        set2_char(0x3C) == Some('u'),
        set2_char(0x2A) == Some('v'),
        set2_char(0x1D) == Some('w'),
        set2_char(0x22) == Some('x'),
        set2_char(0x35) == Some('y'),
        set2_char(0x1A) == Some('z'),
        set2_char(0x45) == Some('0'),
        set2_char(0x16) == Some('1'),
        set2_char(0x1E) == Some('2'),
        set2_char(0x26) == Some('3'),
        set2_char(0x25) == Some('4'),
        set2_char(0x2E) == Some('5'),
        set2_char(0x36) == Some('6'),
        set2_char(0x3D) == Some('7'),
        set2_char(0x3E) == Some('8'),
        set2_char(0x46) == Some('9'),
        set2_char(0x29) == Some(' '),
        set2_char(0x5A) == Some('\n'),
        set2_char(0x66) == Some('\u{8}'),
        set2_char(0x0D) == Some('\t'),
        set2_char(0x76) == Some('\u{1b}'),
        set2_char(code) is Some <==> (code == 0x1C || code == 0x32 || code == 0x21 || code == 0x23 || code == 0x24 || code == 0x2B || code == 0x34 || code == 0x33 || code == 0x43 || code == 0x3B || code == 0x42 || code == 0x4B || code == 0x3A || code == 0x31 || code == 0x44 || code == 0x4D || code == 0x15 || code == 0x2D || code == 0x1B || code == 0x2C || code == 0x3C || code == 0x2A || code == 0x1D || code == 0x22 || code == 0x35 || code == 0x1A || code == 0x45 || code == 0x16 || code == 0x1E || code == 0x26 || code == 0x25 || code == 0x2E || code == 0x36 || code == 0x3D || code == 0x3E || code == 0x46 || code == 0x29 || code == 0x5A || code == 0x66 || code == 0x0D || code == 0x76),
{
}

/// The two prefix bytes are not keys: neither types a character.
pub proof fn lemma_prefixes_type_nothing()
    ensures
        set2_char(BREAK_PREFIX) is None,
        set2_char(EXTENDED_PREFIX) is None,
{
}

/// No two mapped codes type the same character, so a character read back
/// from the key queue names exactly one key.
pub proof fn lemma_set2_injective(a: u8, b: u8)
    requires
        set2_char(a) is Some,
        set2_char(a) == set2_char(b),
    ensures
        a == b,
{
}

/// Every character that the table types is ASCII.
pub proof fn lemma_set2_ascii(code: u8)
    requires
        set2_char(code) is Some,
    ensures
        (set2_char(code)->0 as u32) < 0x80,
{
}

} // verus!
