//! The absolute-path value and the adapter that plugs the escape codec into
//! a structured-serialization framework.
//!
//! A path value is identified by its native unit sequence alone: two values
//! are equal exactly when their sequences are unit-identical. On this
//! deployment's platform convention the native units are bytes, so the
//! adapter composes the byte codec with the path constructor. Constructing a
//! path validates that its native sequence denotes an absolute path; richer
//! validation — existence checks, resolution — belongs to the filesystem
//! layer around this library, which converts at the boundary.

use vstd::prelude::*;

use crate::codec8::{
    decode_u8, decode_u8_spec, encode_u8, encode_u8_spec, lemma_decode_encode_u8,
};
use crate::SyntaxError;

verus! {

/// The byte value of the path separator that roots an absolute path.
pub const SEPARATOR: u8 = 0x2f;

/// Why constructing a path value from a native sequence failed.
#[derive(Clone, Copy, Debug, PartialEq, Eq, Structural)]
pub enum PathError {
    /// The sequence is empty or does not begin at the separator, so it
    /// denotes no absolute path.
    NotAbsolute,
}

/// Why reconstructing a path value from a text scalar failed. Either stage's
/// error is surfaced unchanged; no partial or fallback value ever stands in
/// for a failed decode.
#[derive(Clone, Copy, Debug, PartialEq, Eq, Structural)]
pub enum FromTextError {
    /// The text is not well-formed escaped text.
    Syntax(SyntaxError),
    /// The text decoded, but the decoded sequence was rejected by the path
    /// constructor.
    Path(PathError),
}

/// A native byte sequence that denotes an absolute path: non-empty and
/// rooted at the separator.
pub open spec fn is_absolute(s: Seq<u8>) -> bool {
    s.len() > 0 && s[0] == SEPARATOR
}

/// An absolute path value, held as its native byte sequence. The sequence
/// need not be valid printable text: any byte value may occur after the
/// leading separator.
#[derive(Debug)]
pub struct PathAbs {
    units: Vec<u8>,
}

impl View for PathAbs {
    type V = Seq<u8>;

    closed spec fn view(&self) -> Seq<u8> {
        self.units@
    }
}

impl PathAbs {
    /// Every constructed path value satisfies this: its native sequence is
    /// absolute.
    pub open spec fn wf(&self) -> bool {
        is_absolute(self@)
    }

    /// Construct a path value from a native byte sequence, validating that
    /// it denotes an absolute path; reject every other sequence.
    pub fn new(units: Vec<u8>) -> (r: Result<PathAbs, PathError>)
        ensures
            r is Ok <==> is_absolute(units@),
            r matches Ok(p) ==> p@ == units@ && p.wf(),
            r matches Err(e) ==> e == PathError::NotAbsolute,
    {
        if units.len() > 0 && units[0] == SEPARATOR {
            Ok(PathAbs { units })
        } else {
            Err(PathError::NotAbsolute)
        }
    }

    /// The native representation extractor: view the path as its flat
    /// sequence of fixed-width units. Total, pure, no copying.
    pub fn as_native_units(&self) -> (r: &Vec<u8>)
        ensures
            r@ == self@,
    {
        &self.units
    }

    /// Produce the single text scalar that represents this path: the escaped
    /// text of its native sequence. Total and deterministic; the host
    /// format's own string quoting applies on top, independently.
    pub fn to_text(&self) -> (r: String)
        ensures
            r@ == encode_u8_spec(self@),
    {
        encode_u8(self.units.as_slice())
    }

    /// Reconstruct a path value from a text scalar: decode the escaped text,
    /// then construct the path from the decoded sequence. Each stage's error
    /// is surfaced unchanged.
    pub fn from_text(t: &str) -> (r: Result<PathAbs, FromTextError>)
        ensures
            match r {
                Ok(p) => decode_u8_spec(t@) matches Ok(s) && p@ == s && p.wf(),
                Err(FromTextError::Syntax(e)) => decode_u8_spec(t@) == Err::<
                    Seq<u8>,
                    SyntaxError,
                >(e),
                Err(FromTextError::Path(e)) => decode_u8_spec(t@) matches Ok(s) && !is_absolute(s)
                    && e == PathError::NotAbsolute,
            },
    {
        match decode_u8(t) {
            Ok(units) => match PathAbs::new(units) {
                Ok(p) => Ok(p),
                Err(e) => Err(FromTextError::Path(e)),
            },
            Err(e) => Err(FromTextError::Syntax(e)),
        }
    }
}

/// The round-trip law at the path level: the text a path value serializes to
/// decodes back to exactly its native sequence, and that sequence passes the
/// constructor's validation again.
pub proof fn lemma_path_round_trip(p: PathAbs)
    requires
        p.wf(),
    ensures
        decode_u8_spec(encode_u8_spec(p@)) matches Ok(s) && s == p@ && is_absolute(s),
{
    lemma_decode_encode_u8(p@);
}

fn units_eq(a: &[u8], b: &[u8]) -> (r: bool)
    ensures
        r == (a@ == b@),
{
    if a.len() != b.len() {
        proof {
            if a@ == b@ {
                assert(a@.len() == b@.len());
            }
        }
        return false;
    }
    let n = a.len();
    let mut i: usize = 0;
    while i < n
        invariant
            i <= n,
            n == a@.len() && n == b@.len(),
            forall|j: int| 0 <= j < i ==> a@[j] == b@[j],
        decreases n - i,
    {
        if a[i] != b[i] {
            return false;
        }
        i = i + 1;
    }
    proof {
        assert(a@ =~= b@);
    }
    true
}

impl PartialEq for PathAbs {
    fn eq(&self, other: &PathAbs) -> bool {
        units_eq(self.units.as_slice(), other.units.as_slice())
    }
}

impl Eq for PathAbs {

}

impl vstd::std_specs::cmp::PartialEqSpecImpl for PathAbs {
    open spec fn obeys_eq_spec() -> bool {
        true
    }

    open spec fn eq_spec(&self, other: &PathAbs) -> bool {
        self@ == other@
    }
}

} // verus!
