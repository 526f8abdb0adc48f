//! Double-submit CSRF protection: an opaque token lives in a cookie, and
//! every state-mutating request must echo it in a header. The value proves
//! only that the requester can read and set this origin's cookies.
use vstd::prelude::*;

use rand::RngCore;

use crate::ascii::{ascii_chars_of, ascii_to_string};
use crate::b64;
use crate::b64::{b64_encode, lemma_encode_ascii};

verus! {

/// The double-submit check: both sides present and equal. A missing header
/// or cookie is a mismatch.
pub open spec fn csrf_pair_ok(header: Option<String>, cookie: Option<String>) -> bool {
    match (header, cookie) {
        (Some(h), Some(c)) => h@ == c@,
        _ => false,
    }
}

/// Exec mirror of `csrf_pair_ok`.
pub fn csrf_matches(header: &Option<String>, cookie: &Option<String>) -> (r: bool)
    ensures
        r == csrf_pair_ok(*header, *cookie),
{
    match (header, cookie) {
        (Some(h), Some(c)) => h.eq(c),
        _ => false,
    }
}

/// Relies on `rand::rng` and `RngCore::fill_bytes`: 32 bytes from the
/// thread RNG; nothing is assumed about their values.
#[verifier::external_body]
fn random_bytes32() -> (r: Vec<u8>)
    ensures
        r@.len() == 32,
{
    let mut b = vec![0u8; 32];
    rand::rng().fill_bytes(&mut b);
    b
}

/// The token handed out on first contact: the cookie's value when one is
/// already set, else 32 fresh random bytes in base64url.
pub fn issue_csrf_token(existing: Option<String>) -> (r: String)
    ensures
        existing matches Some(t) ==> r@ == t@,
        existing is None ==> exists|b: Seq<u8>|
            b.len() == 32 && r@ == ascii_chars_of(#[trigger] b64_encode(b)),
{
    match existing {
        Some(t) => t,
        None => {
            let b = random_bytes32();
            let ghost bg = b@;
            let enc = b64::encode(&b);
            proof {
                lemma_encode_ascii(bg);
            }
            let tok = ascii_to_string(enc);
            proof {
                assert(bg.len() == 32 && tok@ == ascii_chars_of(b64_encode(bg)));
            }
            tok
        },
    }
}

} // verus!
