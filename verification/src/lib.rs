//! Lossless, text-safe serialization of absolute filesystem paths.
//!
//! A path's native representation is a flat sequence of fixed-width units:
//! bytes on byte-oriented platforms, 16-bit code units on platforms with a
//! wide path convention. Such a sequence need not be valid printable text,
//! so before it can travel as a single string field it is escaped: printable,
//! interchange-safe ASCII units pass through verbatim, every other unit
//! becomes the introducer character `\` followed by its value in fixed-width
//! lowercase hexadecimal (two digits for bytes, four for 16-bit units).
//! Decoding reverses the transform exactly or fails with a syntax error;
//! it never substitutes a default.
//!
//! `codec8` and `codec16` are the two unit-width instances of the escape
//! codec, selected once per deployment, never per call. `path` holds the
//! absolute-path value type and the adapter that a structured-serialization
//! framework plugs into.

use vstd::prelude::*;

pub mod codec16;
pub mod codec8;
pub mod hex;
pub mod path;

verus! {

/// The reserved escape-introducer character. It never appears unescaped in
/// encoded text; as a literal unit value it is escaped as its own hex value.
pub const INTRODUCER: char = '\\';

/// Why a single decode call fails. Decoding scans left to right and reports
/// the first problem it meets; it never substitutes a default value.
#[derive(Clone, Copy, Debug, PartialEq, Eq, Structural)]
pub enum SyntaxError {
    /// The text ends inside an escape: an introducer with fewer than the
    /// fixed number of hexadecimal digits after it.
    TruncatedEscape,
    /// A character standing where an escape's hexadecimal digit belongs is
    /// not a hexadecimal digit.
    InvalidHexDigit,
    /// A literal character whose code value does not fit the active unit
    /// width, so it can occur in no well-formed escaped text.
    UnitOutOfRange,
}

/// Relies on `String::push`: appends exactly one character at the end of the
/// string and changes nothing else.
#[verifier::external_body]
pub(crate) fn push_char(s: &mut String, c: char)
    ensures
        final(s)@ == old(s)@.push(c),
{
    s.push(c);
}

} // verus!
