//! Lowercase hexadecimal digits: the alphabet of an escape sequence's value
//! part. Encoding always emits lowercase; decoding accepts either case, as
//! any hexadecimal reader does.

use vstd::prelude::*;

verus! {

/// A character that is a valid hexadecimal digit (`0-9`, `a-f`, `A-F`).
pub open spec fn is_hex_digit(c: char) -> bool {
    (0x30 <= c as int && c as int <= 0x39) || (0x61 <= c as int && c as int <= 0x66) || (0x41
        <= c as int && c as int <= 0x46)
}

/// The numeric value of a hexadecimal digit character.
pub open spec fn hex_val(c: char) -> u8
    recommends
        is_hex_digit(c),
{
    if 0x30 <= c as int && c as int <= 0x39 {
        (c as int - 0x30) as u8
    } else if 0x61 <= c as int && c as int <= 0x66 {
        (c as int - 0x61 + 10) as u8
    } else {
        (c as int - 0x41 + 10) as u8
    }
}

/// The lowercase hexadecimal digit character for a value below 16.
pub open spec fn hex_char(d: u8) -> char
    recommends
        d < 16,
{
    if d < 10 {
        (0x30 + d) as char
    } else {
        (0x57 + d) as char
    }
}

/// Emitted digits decode back to their value, and are printable ASCII that
/// is neither the introducer, a quote, nor a control character.
pub proof fn lemma_hex_char_inverts(d: u8)
    requires
        d < 16,
    ensures
        is_hex_digit(hex_char(d)),
        hex_val(hex_char(d)) == d,
        0x30 <= hex_char(d) as int <= 0x66,
{
}

pub fn hex_char_of(d: u8) -> (c: char)
    requires
        d < 16,
    ensures
        c == hex_char(d),
{
    if d < 10 {
        (0x30 + d) as char
    } else {
        (0x57 + d) as char
    }
}

pub fn hex_val_of(c: char) -> (r: Option<u8>)
    ensures
        r is Some <==> is_hex_digit(c),
        r is Some ==> r->0 == hex_val(c) && hex_val(c) < 16,
{
    let n = c as u32;
    if 0x30 <= n && n <= 0x39 {
        Some((n - 0x30) as u8)
    } else if 0x61 <= n && n <= 0x66 {
        Some((n - 0x61 + 10) as u8)
    } else if 0x41 <= n && n <= 0x46 {
        Some((n - 0x41 + 10) as u8)
    } else {
        None
    }
}

} // verus!
