use path_abs::path::{FromTextError, PathAbs, PathError};
use path_abs::SyntaxError;

#[test]
fn new_accepts_absolute_sequence() {
    let p = PathAbs::new(b"/tmp/example".to_vec()).unwrap();
    assert_eq!(p.as_native_units(), &b"/tmp/example".to_vec());
}

#[test]
fn new_rejects_relative_sequence() {
    assert_eq!(PathAbs::new(b"tmp/example".to_vec()).unwrap_err(), PathError::NotAbsolute);
}

#[test]
fn new_rejects_empty_sequence() {
    assert_eq!(PathAbs::new(Vec::new()).unwrap_err(), PathError::NotAbsolute);
}

#[test]
fn text_round_trip_preserves_path() {
    let p = PathAbs::new(b"/tmp/example/foo.txt".to_vec()).unwrap();
    let text = p.to_text();
    assert_eq!(text, "/tmp/example/foo.txt");
    let q = PathAbs::from_text(&text).unwrap();
    assert_eq!(p, q);
}

#[test]
fn text_round_trip_preserves_non_utf8_segment() {
    let mut units: Vec<u8> = b"/tmp/".to_vec();
    units.push(0xc3);
    units.push(0x28);
    let p = PathAbs::new(units.clone()).unwrap();
    let text = p.to_text();
    assert_eq!(text, "/tmp/\\c3(");
    let q = PathAbs::from_text(&text).unwrap();
    assert_eq!(q.as_native_units(), &units);
}

#[test]
fn from_text_surfaces_syntax_error() {
    assert_eq!(
        PathAbs::from_text("/tmp/\\").unwrap_err(),
        FromTextError::Syntax(SyntaxError::TruncatedEscape)
    );
    assert_eq!(
        PathAbs::from_text("/tmp/\\q0").unwrap_err(),
        FromTextError::Syntax(SyntaxError::InvalidHexDigit)
    );
}

#[test]
fn from_text_surfaces_constructor_rejection() {
    assert_eq!(
        PathAbs::from_text("tmp/example").unwrap_err(),
        FromTextError::Path(PathError::NotAbsolute)
    );
    assert_eq!(
        PathAbs::from_text("").unwrap_err(),
        FromTextError::Path(PathError::NotAbsolute)
    );
}

#[test]
fn paths_equal_exactly_on_unit_identity() {
    let p1 = PathAbs::new(b"/a/b".to_vec()).unwrap();
    let p2 = PathAbs::new(b"/a/b".to_vec()).unwrap();
    let p3 = PathAbs::new(b"/a/c".to_vec()).unwrap();
    assert_eq!(p1, p2);
    assert_ne!(p1, p3);
}
