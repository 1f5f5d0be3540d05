use path_abs::codec16::{decode_u16, encode_u16};
use path_abs::codec8::{decode_u8, encode_u8};
use path_abs::SyntaxError;

#[test]
fn round_trip_plain_ascii() {
    let s: Vec<u8> = b"/tmp/example/foo.txt".to_vec();
    let text = encode_u8(&s);
    assert_eq!(text, "/tmp/example/foo.txt");
    assert_eq!(decode_u8(&text).unwrap(), s);
}

#[test]
fn round_trip_empty() {
    let s: Vec<u8> = Vec::new();
    let text = encode_u8(&s);
    assert_eq!(text, "");
    assert_eq!(decode_u8(&text).unwrap(), s);
}

#[test]
fn round_trip_every_byte() {
    let mut s: Vec<u8> = Vec::new();
    for b in 0u16..256u16 {
        s.push(b as u8);
    }
    let text = encode_u8(&s);
    assert_eq!(decode_u8(&text).unwrap(), s);
}

#[test]
fn escapes_non_printable_byte() {
    let s: Vec<u8> = vec![0x2f, 0x66, 0xff, 0x00, 0x0a];
    let text = encode_u8(&s);
    assert_eq!(text, "/f\\ff\\00\\0a");
    assert_eq!(decode_u8(&text).unwrap(), s);
}

#[test]
fn escapes_introducer_and_quote() {
    let s: Vec<u8> = vec![0x5c, 0x22, 0x61];
    let text = encode_u8(&s);
    assert_eq!(text, "\\5c\\22a");
    assert_eq!(decode_u8(&text).unwrap(), s);
}

#[test]
fn encode_is_deterministic() {
    let s: Vec<u8> = vec![0x2f, 0x80, 0x41, 0xfe];
    let first = encode_u8(&s);
    let second = encode_u8(&s);
    assert_eq!(first, second);
}

#[test]
fn encode_is_injective_on_samples() {
    let pairs: Vec<(Vec<u8>, Vec<u8>)> = vec![
        (vec![0x61], vec![0x62]),
        (vec![0x5c, 0x35, 0x63], vec![0x5c, 0x5c]),
        (vec![], vec![0x00]),
        (vec![0xff], vec![0xff, 0xff]),
    ];
    for (s1, s2) in pairs {
        assert_ne!(encode_u8(&s1), encode_u8(&s2));
    }
}

#[test]
fn decode_rejects_trailing_introducer() {
    assert_eq!(decode_u8("abc\\"), Err(SyntaxError::TruncatedEscape));
    assert_eq!(decode_u8("\\"), Err(SyntaxError::TruncatedEscape));
}

#[test]
fn decode_rejects_short_escape() {
    assert_eq!(decode_u8("\\4"), Err(SyntaxError::TruncatedEscape));
    assert_eq!(decode_u8("abc\\f"), Err(SyntaxError::TruncatedEscape));
}

#[test]
fn decode_rejects_non_hex_escape() {
    assert_eq!(decode_u8("\\4g"), Err(SyntaxError::InvalidHexDigit));
    assert_eq!(decode_u8("\\zz"), Err(SyntaxError::InvalidHexDigit));
    assert_eq!(decode_u8("a\\\\00"), Err(SyntaxError::InvalidHexDigit));
}

#[test]
fn decode_rejects_wide_character_in_byte_mode() {
    assert_eq!(decode_u8("a\u{20ac}b"), Err(SyntaxError::UnitOutOfRange));
}

#[test]
fn decode_accepts_uppercase_hex() {
    assert_eq!(decode_u8("\\FF\\0A"), Ok(vec![0xff, 0x0a]));
}

#[test]
fn round_trip_is_idempotent() {
    let s: Vec<u8> = vec![0x2f, 0x00, 0x7f, 0xc3, 0x28, 0x5c];
    let text1 = encode_u8(&s);
    let once = decode_u8(&text1).unwrap();
    let text2 = encode_u8(&once);
    let twice = decode_u8(&text2).unwrap();
    assert_eq!(once, twice);
    assert_eq!(text1, text2);
}

#[test]
fn round_trip_wide_units() {
    let s: Vec<u16> = vec![0x2f, 0x66, 0xd800, 0x0041, 0xffff];
    let text = encode_u16(&s);
    assert_eq!(text, "/f\\d800A\\ffff");
    assert_eq!(decode_u16(&text).unwrap(), s);
}

#[test]
fn round_trip_lone_surrogate() {
    let s: Vec<u16> = vec![0xd800, 0xdfff];
    let text = encode_u16(&s);
    assert_eq!(text, "\\d800\\dfff");
    assert_eq!(decode_u16(&text).unwrap(), s);
}

#[test]
fn wide_decode_rejects_short_escape() {
    assert_eq!(decode_u16("\\d80"), Err(SyntaxError::TruncatedEscape));
    assert_eq!(decode_u16("x\\"), Err(SyntaxError::TruncatedEscape));
}

#[test]
fn wide_decode_rejects_non_hex_escape() {
    assert_eq!(decode_u16("\\d80g"), Err(SyntaxError::InvalidHexDigit));
}

#[test]
fn wide_decode_accepts_plain_bmp_characters() {
    assert_eq!(decode_u16("a\u{20ac}"), Ok(vec![0x61, 0x20ac]));
}

#[test]
fn wide_decode_rejects_supplementary_character() {
    assert_eq!(decode_u16("\u{10000}"), Err(SyntaxError::UnitOutOfRange));
}

#[test]
fn wide_encode_is_deterministic() {
    let s: Vec<u16> = vec![0xdead, 0x20, 0x7e];
    assert_eq!(encode_u16(&s), encode_u16(&s));
}
