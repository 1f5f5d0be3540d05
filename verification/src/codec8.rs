//! The escape codec for byte-oriented platforms: a bijective transform
//! between an arbitrary byte sequence and printable, interchange-safe text.
//!
//! Encoding emits a printable, interchange-safe ASCII byte verbatim as one
//! character; every other byte — controls, the quote, the introducer, and
//! all values at or above 0x80 — becomes the introducer followed by exactly
//! two lowercase hexadecimal digits. Encoding is total and deterministic.
//! Decoding is its exact left inverse and fails with a [`SyntaxError`] on
//! malformed text.

use vstd::prelude::*;

use crate::hex::{hex_char, hex_char_of, hex_val, hex_val_of, is_hex_digit, lemma_hex_char_inverts};
use crate::{push_char, SyntaxError, INTRODUCER};

verus! {

/// A byte that passes through the codec verbatim: printable ASCII that is
/// neither the quote nor the introducer.
pub open spec fn is_verbatim_u8(u: u8) -> bool {
    0x20 <= u && u <= 0x7e && u != 0x22 && u != INTRODUCER as u8
}

/// The three-character escape sequence for one byte.
pub open spec fn escape_u8(u: u8) -> Seq<char> {
    seq![INTRODUCER, hex_char(u / 16), hex_char(u % 16)]
}

/// The characters one byte contributes to the encoded text.
pub open spec fn encode_unit_u8(u: u8) -> Seq<char> {
    if is_verbatim_u8(u) {
        seq![u as char]
    } else {
        escape_u8(u)
    }
}

/// The escaped text of a whole byte sequence: each byte's contribution, in
/// order. Total over all byte sequences.
pub open spec fn encode_u8_spec(s: Seq<u8>) -> Seq<char>
    decreases s.len(),
{
    if s.len() == 0 {
        Seq::empty()
    } else {
        encode_unit_u8(s[0]) + encode_u8_spec(s.drop_first())
    }
}

/// The byte sequence an escaped text denotes, or the syntax error met first
/// in a left-to-right scan: a non-introducer character contributes its code
/// value as one byte, an introducer must be followed by exactly two
/// hexadecimal digits giving the byte's value.
pub open spec fn decode_u8_spec(t: Seq<char>) -> Result<Seq<u8>, SyntaxError>
    decreases t.len(),
{
    if t.len() == 0 {
        Ok(Seq::empty())
    } else if t[0] == INTRODUCER {
        if t.len() < 3 {
            Err(SyntaxError::TruncatedEscape)
        } else if !(is_hex_digit(t[1]) && is_hex_digit(t[2])) {
            Err(SyntaxError::InvalidHexDigit)
        } else {
            match decode_u8_spec(t.skip(3)) {
                Ok(rest) => Ok(seq![(16 * hex_val(t[1]) + hex_val(t[2])) as u8] + rest),
                Err(e) => Err(e),
            }
        }
    } else if t[0] as int <= 0xff {
        match decode_u8_spec(t.skip(1)) {
            Ok(rest) => Ok(seq![t[0] as u8] + rest),
            Err(e) => Err(e),
        }
    } else {
        Err(SyntaxError::UnitOutOfRange)
    }
}

/// Appending one byte appends its contribution to the encoded text.
pub proof fn lemma_encode_u8_snoc(s: Seq<u8>, u: u8)
    ensures
        encode_u8_spec(s.push(u)) == encode_u8_spec(s) + encode_unit_u8(u),
    decreases s.len(),
{
    if s.len() == 0 {
        let sp = s.push(u);
        assert(sp.drop_first() =~= Seq::<u8>::empty());
        assert(encode_u8_spec(sp.drop_first()) == Seq::<char>::empty());
        assert(sp[0] == u);
        assert(encode_u8_spec(sp) =~= encode_unit_u8(u));
        assert(encode_u8_spec(s) + encode_unit_u8(u) =~= encode_unit_u8(u));
    } else {
        lemma_encode_u8_snoc(s.drop_first(), u);
        assert(s.push(u).drop_first() =~= s.drop_first().push(u));
        assert(encode_unit_u8(s[0]) + (encode_u8_spec(s.drop_first()) + encode_unit_u8(u))
            =~= (encode_unit_u8(s[0]) + encode_u8_spec(s.drop_first())) + encode_unit_u8(u));
    }
}

/// The round-trip law: decoding undoes encoding exactly, for every byte
/// sequence, including those with no printable-text interpretation.
pub proof fn lemma_decode_encode_u8(s: Seq<u8>)
    ensures
        decode_u8_spec(encode_u8_spec(s)) == Ok::<Seq<u8>, SyntaxError>(s),
    decreases s.len(),
{
    if s.len() == 0 {
        assert(s =~= Seq::<u8>::empty());
        assert(encode_u8_spec(s) == Seq::<char>::empty());
    } else {
        let u = s[0];
        let rest = encode_u8_spec(s.drop_first());
        let t = encode_u8_spec(s);
        lemma_decode_encode_u8(s.drop_first());
        if is_verbatim_u8(u) {
            assert(t[0] == u as char);
            assert(t[0] as int == u as int);
            assert(t[0] != INTRODUCER);
            assert(t.skip(1) =~= rest);
            assert(seq![t[0] as u8] + s.drop_first() =~= s);
        } else {
            lemma_hex_char_inverts(u / 16);
            lemma_hex_char_inverts(u % 16);
            assert(t[0] == INTRODUCER);
            assert(t.len() >= 3);
            assert(t[1] == hex_char(u / 16) && t[2] == hex_char(u % 16));
            assert(t.skip(3) =~= rest);
            assert(16 * hex_val(t[1]) + hex_val(t[2]) == u as int);
            assert(seq![(16 * hex_val(t[1]) + hex_val(t[2])) as u8] + s.drop_first() =~= s);
        }
    }
}

/// Encoded text is interchange-safe: every character of it is printable
/// ASCII and never the quote, so no raw control character, no non-ASCII
/// character, and no quote ever reaches the wire unescaped.
pub proof fn lemma_encode_u8_printable(s: Seq<u8>)
    ensures
        forall|i: int|
            0 <= i < encode_u8_spec(s).len() ==> 0x20 <= #[trigger] (encode_u8_spec(s)[i] as int)
                <= 0x7e && encode_u8_spec(s)[i] != '"',
    decreases s.len(),
{
    if s.len() > 0 {
        lemma_encode_u8_printable(s.drop_first());
        let unit = encode_unit_u8(s[0]);
        if !is_verbatim_u8(s[0]) {
            lemma_hex_char_inverts(s[0] / 16);
            lemma_hex_char_inverts(s[0] % 16);
        }
        assert(forall|i: int|
            0 <= i < unit.len() ==> 0x20 <= #[trigger] (unit[i] as int) <= 0x7e && unit[i] != '"');
        assert(forall|i: int|
            unit.len() <= i < encode_u8_spec(s).len() ==> encode_u8_spec(s)[i]
                == encode_u8_spec(s.drop_first())[i - unit.len()]);
    }
}

/// Injectivity: distinct byte sequences have distinct encodings.
pub proof fn lemma_encode_u8_injective(s1: Seq<u8>, s2: Seq<u8>)
    requires
        s1 != s2,
    ensures
        encode_u8_spec(s1) != encode_u8_spec(s2),
{
    lemma_decode_encode_u8(s1);
    lemma_decode_encode_u8(s2);
}

/// Determinism: the encoded text is a function of the byte sequence alone,
/// so any two encodings of the same sequence are character-identical.
pub proof fn lemma_encode_u8_deterministic(s: Seq<u8>, t1: Seq<char>, t2: Seq<char>)
    requires
        t1 == encode_u8_spec(s),
        t2 == encode_u8_spec(s),
    ensures
        t1 == t2,
{
}

/// Stability under repeated round trips: decode-of-encode applied to its own
/// result gives the same answer again.
pub proof fn lemma_round_trip_idempotent_u8(s: Seq<u8>)
    ensures
        decode_u8_spec(encode_u8_spec(s)) is Ok,
        decode_u8_spec(encode_u8_spec(decode_u8_spec(encode_u8_spec(s))->Ok_0))
            == decode_u8_spec(encode_u8_spec(s)),
{
    lemma_decode_encode_u8(s);
}

/// Text that ends in a bare introducer never decodes: the final introducer
/// either starts a truncated escape or stands where a hexadecimal digit
/// belongs.
pub proof fn lemma_decode_u8_trailing_introducer(t: Seq<char>)
    requires
        t.len() > 0,
        t.last() == INTRODUCER,
    ensures
        decode_u8_spec(t) is Err,
    decreases t.len(),
{
    if t[0] == INTRODUCER {
        if t.len() >= 3 && is_hex_digit(t[1]) && is_hex_digit(t[2]) {
            assert(t.len() > 3);
            let r = t.skip(3);
            assert(r.last() == t.last());
            lemma_decode_u8_trailing_introducer(r);
        }
    } else if t[0] as int <= 0xff {
        assert(t.len() > 1);
        let r = t.skip(1);
        assert(r.last() == t.last());
        lemma_decode_u8_trailing_introducer(r);
    }
}

/// An introducer at the head followed by fewer than two characters fails as
/// a truncated escape; one followed by a non-hexadecimal character fails as
/// an invalid digit.
pub proof fn lemma_decode_u8_malformed_escape(t: Seq<char>)
    requires
        t.len() > 0,
        t[0] == INTRODUCER,
    ensures
        t.len() < 3 ==> decode_u8_spec(t) == Err::<Seq<u8>, SyntaxError>(
            SyntaxError::TruncatedEscape,
        ),
        t.len() >= 3 && !(is_hex_digit(t[1]) && is_hex_digit(t[2])) ==> decode_u8_spec(t)
            == Err::<Seq<u8>, SyntaxError>(SyntaxError::InvalidHexDigit),
{
}

/// Encode a byte sequence as escaped text. Total: every byte sequence has
/// exactly this one encoding.
pub fn encode_u8(s: &[u8]) -> (r: String)
    ensures
        r@ == encode_u8_spec(s@),
{
    let mut out = String::new();
    let mut i: usize = 0;
    while i < s.len()
        invariant
            i <= s@.len(),
            out@ == encode_u8_spec(s@.take(i as int)),
        decreases s@.len() - i,
    {
        let u = s[i];
        proof {
            assert(s@.take(i as int + 1) =~= s@.take(i as int).push(s@[i as int]));
            lemma_encode_u8_snoc(s@.take(i as int), s@[i as int]);
        }
        if 0x20 <= u && u <= 0x7e && u != 0x22 && u != 0x5c {
            assert(u != INTRODUCER as u8);
            push_char(&mut out, u as char);
            assert(out@ =~= encode_u8_spec(s@.take(i as int)) + encode_unit_u8(s@[i as int]));
        } else {
            push_char(&mut out, INTRODUCER);
            push_char(&mut out, hex_char_of(u / 16));
            push_char(&mut out, hex_char_of(u % 16));
            assert(out@ =~= encode_u8_spec(s@.take(i as int)) + encode_unit_u8(s@[i as int]));
        }
        i = i + 1;
    }
    proof {
        assert(s@.take(i as int) =~= s@);
    }
    out
}

/// Decode escaped text back to the byte sequence it denotes, or report the
/// first syntax error of a left-to-right scan. The exact left inverse of
/// [`encode_u8`]; it never substitutes a default on malformed input.
pub fn decode_u8(t: &str) -> (r: Result<Vec<u8>, SyntaxError>)
    ensures
        match r {
            Ok(v) => decode_u8_spec(t@) == Ok::<Seq<u8>, SyntaxError>(v@),
            Err(e) => decode_u8_spec(t@) == Err::<Seq<u8>, SyntaxError>(e),
        },
{
    let n = t.unicode_len();
    let mut out: Vec<u8> = Vec::new();
    let mut i: usize = 0;
    proof {
        assert(t@.skip(0) =~= t@);
        assert(forall|rest: Seq<u8>| #[trigger] (out@ + rest) =~= rest);
    }
    while i < n
        invariant
            i <= n,
            n == t@.len(),
            decode_u8_spec(t@) == (match decode_u8_spec(t@.skip(i as int)) {
                Ok(rest) => Ok::<Seq<u8>, SyntaxError>(out@ + rest),
                Err(e) => Err::<Seq<u8>, SyntaxError>(e),
            }),
        decreases n - i,
    {
        let ghost tail = t@.skip(i as int);
        assert(tail.len() == n - i && tail[0] == t@[i as int]);
        let c = t.get_char(i);
        if c == INTRODUCER {
            if n - i < 3 {
                assert(decode_u8_spec(tail) == Err::<Seq<u8>, SyntaxError>(
                    SyntaxError::TruncatedEscape,
                ));
                return Err(SyntaxError::TruncatedEscape);
            }
            let h1 = t.get_char(i + 1);
            let h2 = t.get_char(i + 2);
            assert(tail[1] == h1 && tail[2] == h2);
            match (hex_val_of(h1), hex_val_of(h2)) {
                (Some(d1), Some(d2)) => {
                    let u: u8 = 16 * d1 + d2;
                    let ghost out_old = out@;
                    out.push(u);
                    proof {
                        let tail3 = t@.skip(i as int + 3);
                        assert(tail.skip(3) =~= tail3);
                        assert(u == (16 * hex_val(tail[1]) + hex_val(tail[2])) as u8);
                        assert(out@ =~= out_old + seq![u]);
                        if decode_u8_spec(tail3) is Ok {
                            let rest = decode_u8_spec(tail3)->Ok_0;
                            assert(decode_u8_spec(tail) == Ok::<Seq<u8>, SyntaxError>(
                                seq![u] + rest,
                            ));
                            assert(out_old + (seq![u] + rest) =~= out@ + rest);
                        }
                    }
                    i = i + 3;
                }
                _ => {
                    assert(decode_u8_spec(tail) == Err::<Seq<u8>, SyntaxError>(
                        SyntaxError::InvalidHexDigit,
                    ));
                    return Err(SyntaxError::InvalidHexDigit);
                },
            }
        } else {
            let code = c as u32;
            if code <= 0xff {
                let ghost out_old = out@;
                out.push(code as u8);
                proof {
                    let tail1 = t@.skip(i as int + 1);
                    assert(tail.skip(1) =~= tail1);
                    assert(tail[0] as int <= 0xff);
                    assert(code as u8 == tail[0] as u8);
                    assert(out@ =~= out_old + seq![code as u8]);
                    if decode_u8_spec(tail1) is Ok {
                        let rest = decode_u8_spec(tail1)->Ok_0;
                        assert(decode_u8_spec(tail) == Ok::<Seq<u8>, SyntaxError>(
                            seq![tail[0] as u8] + rest,
                        ));
                        assert(out_old + (seq![code as u8] + rest) =~= out@ + rest);
                    }
                }
                i = i + 1;
            } else {
                assert(decode_u8_spec(tail) == Err::<Seq<u8>, SyntaxError>(
                    SyntaxError::UnitOutOfRange,
                ));
                return Err(SyntaxError::UnitOutOfRange);
            }
        }
    }
    proof {
        assert(t@.skip(i as int) =~= Seq::<char>::empty());
        assert(decode_u8_spec(t@.skip(i as int)) == Ok::<Seq<u8>, SyntaxError>(Seq::empty()));
        assert(out@ + Seq::<u8>::empty() =~= out@);
    }
    Ok(out)
}

} // verus!
