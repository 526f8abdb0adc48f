//! Bridging between ASCII byte sequences and character sequences.
//!
//! Tokens and the other wire artefacts of this crate are built as ASCII byte
//! vectors; this module relates them to the `Seq<char>` views of the `String`
//! values that cross the public API.
use vstd::prelude::*;
use vstd::string::StrSliceExecFns;

verus! {

/// The characters of an ASCII byte sequence, one char per byte.
pub open spec fn ascii_chars_of(b: Seq<u8>) -> Seq<char> {
    b.map(|_i: int, c: u8| c as char)
}

/// Every byte is in the ASCII range.
pub open spec fn all_ascii(b: Seq<u8>) -> bool {
    forall|i: int| 0 <= i < b.len() ==> b[i] < 128
}

/// Casting an ASCII byte to a char and back is the identity, in both
/// directions.
pub proof fn lemma_ascii_cast_roundtrip(b: u8)
    requires
        b < 128,
    ensures
        (b as char) as u8 == b,
        '\0' <= (b as char) <= '\u{7f}',
{
}

/// The chars of an ASCII byte sequence form an ASCII char sequence.
pub proof fn lemma_ascii_chars_is_ascii(b: Seq<u8>)
    requires
        all_ascii(b),
    ensures
        vstd::utf8::is_ascii_chars(ascii_chars_of(b)),
{
    assert forall|i: int|
        0 <= i < ascii_chars_of(b).len() implies '\0' <= #[trigger] ascii_chars_of(b)[i]
        <= '\u{7f}' by {
        lemma_ascii_cast_roundtrip(b[i]);
        assert(ascii_chars_of(b)[i] == b[i] as char);
    }
}

/// Byte-for-byte equality of two vectors.
pub fn bytes_eq(a: &Vec<u8>, b: &Vec<u8>) -> (r: bool)
    ensures
        r == (a@ == b@),
{
    if a.len() != b.len() {
        return false;
    }
    let mut i: usize = 0;
    while i < a.len()
        invariant
            i <= a.len(),
            a.len() == b.len(),
            forall|j: int| 0 <= j < i ==> a@[j] == b@[j],
        decreases a.len() - i,
    {
        if a[i] != b[i] {
            return false;
        }
        i = i + 1;
    }
    proof {
        assert(a@ =~= b@);
    }
    true
}

/// Relies on `String::from_utf8`: bytes in the ASCII range decode to the
/// string whose chars carry the same values.
#[verifier::external_body]
pub fn ascii_to_string(bytes: Vec<u8>) -> (r: String)
    requires
        all_ascii(bytes@),
    ensures
        r@ == ascii_chars_of(bytes@),
{
    match String::from_utf8(bytes) {
        Ok(s) => s,
        Err(_) => String::new(),
    }
}

/// The UTF-8 bytes of an ASCII string are the byte values of its chars.
pub fn ascii_string_to_bytes(s: &str) -> (r: Vec<u8>)
    requires
        s.is_ascii(),
    ensures
        r@ == s@.map(|_i: int, c: char| c as u8),
        all_ascii(r@),
        ascii_chars_of(r@) == s@,
{
    broadcast use vstd::string::is_ascii_spec_bytes;
    broadcast use vstd::utf8::is_ascii_chars_nat_bound;

    let v = s.as_bytes_vec();
    proof {
        let m = s@.map(|_i: int, c: char| c as u8);
        assert(v@ =~= m);
        assert forall|i: int| 0 <= i < m.len() implies m[i] < 128 by {
            assert('\0' <= s@[i] <= '\u{7f}');
        }
        assert forall|i: int| 0 <= i < s@.len() implies ascii_chars_of(m)[i] == s@[i] by {
            assert('\0' <= s@[i] <= '\u{7f}');
            assert(m[i] == s@[i] as u8);
        }
        assert(ascii_chars_of(m) =~= s@);
    }
    v
}

} // verus!
