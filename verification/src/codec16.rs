//! The escape codec for platforms whose native path representation is a
//! sequence of 16-bit code units, including unpaired surrogate values that
//! form no valid text.
//!
//! The scheme is the same as the byte codec's, with the escape's value part
//! widened to exactly four lowercase hexadecimal digits: a printable,
//! interchange-safe ASCII unit passes through verbatim, every other unit —
//! controls, the quote, the introducer, and every value at or above 0x7f,
//! lone surrogates among them — becomes the introducer followed by its
//! four-digit hexadecimal value.

use vstd::prelude::*;

use crate::hex::{hex_char, hex_char_of, hex_val, hex_val_of, is_hex_digit, lemma_hex_char_inverts};
use crate::{push_char, SyntaxError, INTRODUCER};

verus! {

/// A code unit that passes through the codec verbatim: printable ASCII that
/// is neither the quote nor the introducer.
pub open spec fn is_verbatim_u16(u: u16) -> bool {
    0x20 <= u && u <= 0x7e && u != 0x22 && u != INTRODUCER as u16
}

/// The four hexadecimal digits of one code unit, most significant first.
pub open spec fn escape_u16(u: u16) -> Seq<char> {
    seq![
        INTRODUCER,
        hex_char((u / 4096) as u8),
        hex_char(((u / 256) % 16) as u8),
        hex_char(((u / 16) % 16) as u8),
        hex_char((u % 16) as u8),
    ]
}

/// The characters one code unit contributes to the encoded text.
pub open spec fn encode_unit_u16(u: u16) -> Seq<char> {
    if is_verbatim_u16(u) {
        seq![u as char]
    } else {
        escape_u16(u)
    }
}

/// The escaped text of a whole code-unit sequence: each unit's contribution,
/// in order. Total over all sequences, lone surrogates included.
pub open spec fn encode_u16_spec(s: Seq<u16>) -> Seq<char>
    decreases s.len(),
{
    if s.len() == 0 {
        Seq::empty()
    } else {
        encode_unit_u16(s[0]) + encode_u16_spec(s.drop_first())
    }
}

/// The code-unit sequence an escaped text denotes, or the syntax error met
/// first in a left-to-right scan: a non-introducer character contributes its
/// code value as one unit, an introducer must be followed by exactly four
/// hexadecimal digits giving the unit's value.
pub open spec fn decode_u16_spec(t: Seq<char>) -> Result<Seq<u16>, SyntaxError>
    decreases t.len(),
{
    if t.len() == 0 {
        Ok(Seq::empty())
    } else if t[0] == INTRODUCER {
        if t.len() < 5 {
            Err(SyntaxError::TruncatedEscape)
        } else if !(is_hex_digit(t[1]) && is_hex_digit(t[2]) && is_hex_digit(t[3]) && is_hex_digit(
            t[4],
        )) {
            Err(SyntaxError::InvalidHexDigit)
        } else {
            match decode_u16_spec(t.skip(5)) {
                Ok(rest) => Ok(
                    seq![
                        (4096 * hex_val(t[1]) + 256 * hex_val(t[2]) + 16 * hex_val(t[3]) + hex_val(
                            t[4],
                        )) as u16,
                    ] + rest,
                ),
                Err(e) => Err(e),
            }
        }
    } else if t[0] as int <= 0xffff {
        match decode_u16_spec(t.skip(1)) {
            Ok(rest) => Ok(seq![t[0] as u16] + rest),
            Err(e) => Err(e),
        }
    } else {
        Err(SyntaxError::UnitOutOfRange)
    }
}

/// Appending one code unit appends its contribution to the encoded text.
pub proof fn lemma_encode_u16_snoc(s: Seq<u16>, u: u16)
    ensures
        encode_u16_spec(s.push(u)) == encode_u16_spec(s) + encode_unit_u16(u),
    decreases s.len(),
{
    if s.len() == 0 {
        let sp = s.push(u);
        assert(sp.drop_first() =~= Seq::<u16>::empty());
        assert(encode_u16_spec(sp.drop_first()) == Seq::<char>::empty());
        assert(sp[0] == u);
        assert(encode_u16_spec(sp) =~= encode_unit_u16(u));
        assert(encode_u16_spec(s) + encode_unit_u16(u) =~= encode_unit_u16(u));
    } else {
        lemma_encode_u16_snoc(s.drop_first(), u);
        assert(s.push(u).drop_first() =~= s.drop_first().push(u));
        assert(encode_unit_u16(s[0]) + (encode_u16_spec(s.drop_first()) + encode_unit_u16(u))
            =~= (encode_unit_u16(s[0]) + encode_u16_spec(s.drop_first())) + encode_unit_u16(u));
    }
}

/// The round-trip law: decoding undoes encoding exactly, for every code-unit
/// sequence, including those with no valid text interpretation.
pub proof fn lemma_decode_encode_u16(s: Seq<u16>)
    ensures
        decode_u16_spec(encode_u16_spec(s)) == Ok::<Seq<u16>, SyntaxError>(s),
    decreases s.len(),
{
    if s.len() == 0 {
        assert(s =~= Seq::<u16>::empty());
        assert(encode_u16_spec(s) == Seq::<char>::empty());
    } else {
        let u = s[0];
        let rest = encode_u16_spec(s.drop_first());
        let t = encode_u16_spec(s);
        lemma_decode_encode_u16(s.drop_first());
        if is_verbatim_u16(u) {
            assert(t[0] == u as char);
            assert(t[0] as int == u as int);
            assert(t[0] != INTRODUCER);
            assert(t.skip(1) =~= rest);
            assert(seq![t[0] as u16] + s.drop_first() =~= s);
        } else {
            lemma_hex_char_inverts((u / 4096) as u8);
            lemma_hex_char_inverts(((u / 256) % 16) as u8);
            lemma_hex_char_inverts(((u / 16) % 16) as u8);
            lemma_hex_char_inverts((u % 16) as u8);
            assert(t[0] == INTRODUCER);
            assert(t.len() >= 5);
            assert(t[1] == hex_char((u / 4096) as u8) && t[2] == hex_char(((u / 256) % 16) as u8)
                && t[3] == hex_char(((u / 16) % 16) as u8) && t[4] == hex_char((u % 16) as u8));
            assert(t.skip(5) =~= rest);
            assert(4096 * hex_val(t[1]) + 256 * hex_val(t[2]) + 16 * hex_val(t[3]) + hex_val(t[4])
                == u as int);
            assert(seq![
                (4096 * hex_val(t[1]) + 256 * hex_val(t[2]) + 16 * hex_val(t[3]) + hex_val(
                    t[4],
                )) as u16,
            ] + s.drop_first() =~= s);
        }
    }
}

/// Encoded text is interchange-safe: every character of it is printable
/// ASCII and never the quote, so no raw control character, no non-ASCII
/// character, and no quote ever reaches the wire unescaped.
pub proof fn lemma_encode_u16_printable(s: Seq<u16>)
    ensures
        forall|i: int|
            0 <= i < encode_u16_spec(s).len() ==> 0x20 <= #[trigger] (encode_u16_spec(s)[i] as int)
                <= 0x7e && encode_u16_spec(s)[i] != '"',
    decreases s.len(),
{
    if s.len() > 0 {
        lemma_encode_u16_printable(s.drop_first());
        let unit = encode_unit_u16(s[0]);
        if !is_verbatim_u16(s[0]) {
            lemma_hex_char_inverts((s[0] / 4096) as u8);
            lemma_hex_char_inverts(((s[0] / 256) % 16) as u8);
            lemma_hex_char_inverts(((s[0] / 16) % 16) as u8);
            lemma_hex_char_inverts((s[0] % 16) as u8);
        }
        assert(forall|i: int|
            0 <= i < unit.len() ==> 0x20 <= #[trigger] (unit[i] as int) <= 0x7e && unit[i] != '"');
        assert(forall|i: int|
            unit.len() <= i < encode_u16_spec(s).len() ==> encode_u16_spec(s)[i]
                == encode_u16_spec(s.drop_first())[i - unit.len()]);
    }
}

/// Injectivity: distinct code-unit sequences have distinct encodings.
pub proof fn lemma_encode_u16_injective(s1: Seq<u16>, s2: Seq<u16>)
    requires
        s1 != s2,
    ensures
        encode_u16_spec(s1) != encode_u16_spec(s2),
{
    lemma_decode_encode_u16(s1);
    lemma_decode_encode_u16(s2);
}

/// Determinism: the encoded text is a function of the unit sequence alone,
/// so any two encodings of the same sequence are character-identical.
pub proof fn lemma_encode_u16_deterministic(s: Seq<u16>, t1: Seq<char>, t2: Seq<char>)
    requires
        t1 == encode_u16_spec(s),
        t2 == encode_u16_spec(s),
    ensures
        t1 == t2,
{
}

/// Stability under repeated round trips: decode-of-encode applied to its own
/// result gives the same answer again.
pub proof fn lemma_round_trip_idempotent_u16(s: Seq<u16>)
    ensures
        decode_u16_spec(encode_u16_spec(s)) is Ok,
        decode_u16_spec(encode_u16_spec(decode_u16_spec(encode_u16_spec(s))->Ok_0))
            == decode_u16_spec(encode_u16_spec(s)),
{
    lemma_decode_encode_u16(s);
}

/// Text that ends in a bare introducer never decodes: the final introducer
/// either starts a truncated escape or stands where a hexadecimal digit
/// belongs.
pub proof fn lemma_decode_u16_trailing_introducer(t: Seq<char>)
    requires
        t.len() > 0,
        t.last() == INTRODUCER,
    ensures
        decode_u16_spec(t) is Err,
    decreases t.len(),
{
    if t[0] == INTRODUCER {
        if t.len() >= 5 && is_hex_digit(t[1]) && is_hex_digit(t[2]) && is_hex_digit(t[3])
            && is_hex_digit(t[4]) {
            assert(t.len() > 5);
            let r = t.skip(5);
            assert(r.last() == t.last());
            lemma_decode_u16_trailing_introducer(r);
        }
    } else if t[0] as int <= 0xffff {
        assert(t.len() > 1);
        let r = t.skip(1);
        assert(r.last() == t.last());
        lemma_decode_u16_trailing_introducer(r);
    }
}

/// An introducer at the head followed by fewer than four characters fails as
/// a truncated escape; one followed by a non-hexadecimal character among its
/// four digit positions fails as an invalid digit.
pub proof fn lemma_decode_u16_malformed_escape(t: Seq<char>)
    requires
        t.len() > 0,
        t[0] == INTRODUCER,
    ensures
        t.len() < 5 ==> decode_u16_spec(t) == Err::<Seq<u16>, SyntaxError>(
            SyntaxError::TruncatedEscape,
        ),
        t.len() >= 5 && !(is_hex_digit(t[1]) && is_hex_digit(t[2]) && is_hex_digit(t[3])
            && is_hex_digit(t[4])) ==> decode_u16_spec(t) == Err::<Seq<u16>, SyntaxError>(
            SyntaxError::InvalidHexDigit,
        ),
{
}

/// Encode a code-unit sequence as escaped text. Total: every sequence has
/// exactly this one encoding.
pub fn encode_u16(s: &[u16]) -> (r: String)
    ensures
        r@ == encode_u16_spec(s@),
{
    let mut out = String::new();
    let mut i: usize = 0;
    while i < s.len()
        invariant
            i <= s@.len(),
            out@ == encode_u16_spec(s@.take(i as int)),
        decreases s@.len() - i,
    {
        let u = s[i];
        proof {
            assert(s@.take(i as int + 1) =~= s@.take(i as int).push(s@[i as int]));
            lemma_encode_u16_snoc(s@.take(i as int), s@[i as int]);
        }
        if 0x20 <= u && u <= 0x7e && u != 0x22 && u != 0x5c {
            assert(u != INTRODUCER as u16);
            push_char(&mut out, (u as u8) as char);
            assert((u as u8) as char == u as char);
            assert(out@ =~= encode_u16_spec(s@.take(i as int)) + encode_unit_u16(s@[i as int]));
        } else {
            push_char(&mut out, INTRODUCER);
            push_char(&mut out, hex_char_of((u / 4096) as u8));
            push_char(&mut out, hex_char_of(((u / 256) % 16) as u8));
            push_char(&mut out, hex_char_of(((u / 16) % 16) as u8));
            push_char(&mut out, hex_char_of((u % 16) as u8));
            assert(out@ =~= encode_u16_spec(s@.take(i as int)) + encode_unit_u16(s@[i as int]));
        }
        i = i + 1;
    }
    proof {
        assert(s@.take(i as int) =~= s@);
    }
    out
}

/// Decode escaped text back to the code-unit sequence it denotes, or report
/// the first syntax error of a left-to-right scan. The exact left inverse of
/// [`encode_u16`]; it never substitutes a default on malformed input.
pub fn decode_u16(t: &str) -> (r: Result<Vec<u16>, SyntaxError>)
    ensures
        match r {
            Ok(v) => decode_u16_spec(t@) == Ok::<Seq<u16>, SyntaxError>(v@),
            Err(e) => decode_u16_spec(t@) == Err::<Seq<u16>, SyntaxError>(e),
        },
{
    let n = t.unicode_len();
    let mut out: Vec<u16> = Vec::new();
    let mut i: usize = 0;
    proof {
        assert(t@.skip(0) =~= t@);
        assert(forall|rest: Seq<u16>| #[trigger] (out@ + rest) =~= rest);
    }
    while i < n
        invariant
            i <= n,
            n == t@.len(),
            decode_u16_spec(t@) == (match decode_u16_spec(t@.skip(i as int)) {
                Ok(rest) => Ok::<Seq<u16>, SyntaxError>(out@ + rest),
                Err(e) => Err::<Seq<u16>, SyntaxError>(e),
            }),
        decreases n - i,
    {
        let ghost tail = t@.skip(i as int);
        assert(tail.len() == n - i && tail[0] == t@[i as int]);
        let c = t.get_char(i);
        if c == INTRODUCER {
            if n - i < 5 {
                assert(decode_u16_spec(tail) == Err::<Seq<u16>, SyntaxError>(
                    SyntaxError::TruncatedEscape,
                ));
                return Err(SyntaxError::TruncatedEscape);
            }
            let h1 = t.get_char(i + 1);
            let h2 = t.get_char(i + 2);
            let h3 = t.get_char(i + 3);
            let h4 = t.get_char(i + 4);
            assert(tail[1] == h1 && tail[2] == h2 && tail[3] == h3 && tail[4] == h4);
            match (hex_val_of(h1), hex_val_of(h2), hex_val_of(h3), hex_val_of(h4)) {
                (Some(d1), Some(d2), Some(d3), Some(d4)) => {
                    let u: u16 = 4096 * (d1 as u16) + 256 * (d2 as u16) + 16 * (d3 as u16) + (
                    d4 as u16);
                    let ghost out_old = out@;
                    out.push(u);
                    proof {
                        let tail5 = t@.skip(i as int + 5);
                        assert(tail.skip(5) =~= tail5);
                        assert(u == (4096 * hex_val(tail[1]) + 256 * hex_val(tail[2]) + 16
                            * hex_val(tail[3]) + hex_val(tail[4])) as u16);
                        assert(out@ =~= out_old + seq![u]);
                        if decode_u16_spec(tail5) is Ok {
                            let rest = decode_u16_spec(tail5)->Ok_0;
                            assert(decode_u16_spec(tail) == Ok::<Seq<u16>, SyntaxError>(
                                seq![u] + rest,
                            ));
                            assert(out_old + (seq![u] + rest) =~= out@ + rest);
                        }
                    }
                    i = i + 5;
                }
                _ => {
                    assert(decode_u16_spec(tail) == Err::<Seq<u16>, SyntaxError>(
                        SyntaxError::InvalidHexDigit,
                    ));
                    return Err(SyntaxError::InvalidHexDigit);
                },
            }
        } else {
            let code = c as u32;
            if code <= 0xffff {
                let ghost out_old = out@;
                out.push(code as u16);
                proof {
                    let tail1 = t@.skip(i as int + 1);
                    assert(tail.skip(1) =~= tail1);
                    assert(tail[0] as int <= 0xffff);
                    assert(code as u16 == tail[0] as u16);
                    assert(out@ =~= out_old + seq![code as u16]);
                    if decode_u16_spec(tail1) is Ok {
                        let rest = decode_u16_spec(tail1)->Ok_0;
                        assert(decode_u16_spec(tail) == Ok::<Seq<u16>, SyntaxError>(
                            seq![tail[0] as u16] + rest,
                        ));
                        assert(out_old + (seq![code as u16] + rest) =~= out@ + rest);
                    }
                }
                i = i + 1;
            } else {
                assert(decode_u16_spec(tail) == Err::<Seq<u16>, SyntaxError>(
                    SyntaxError::UnitOutOfRange,
                ));
                return Err(SyntaxError::UnitOutOfRange);
            }
        }
    }
    proof {
        assert(t@.skip(i as int) =~= Seq::<char>::empty());
        assert(decode_u16_spec(t@.skip(i as int)) == Ok::<Seq<u16>, SyntaxError>(Seq::empty()));
        assert(out@ + Seq::<u16>::empty() =~= out@);
    }
    Ok(out)
}

} // verus!
