//! The asymmetric signature primitive behind compact tokens.
//!
//! Signing and verification are Ed25519 through the jsonwebtoken crate; the
//! key pair is process-wide, loaded once, and the verifying half can be
//! distributed alone. The signature itself is named, not spelled out: what
//! is proved is how the rest of the token is framed around it.
use vstd::prelude::*;

use vstd::utf8::is_ascii_chars;

verus! {

/// The process-wide signing key: an Ed25519 private key in PEM (PKCS#8)
/// form, as supplied out-of-band at startup.
pub struct SigningKey {
    pub pem: Vec<u8>,
}

/// The verification-only mate of a `SigningKey`: an Ed25519 public key in
/// PEM form.
pub struct VerifyingKey {
    pub pem: Vec<u8>,
}

/// The base64url signature that Ed25519 signing produces for `msg` under
/// the private key in `prv_pem`. Ed25519 signing is deterministic, so this
/// is a function of its arguments alone.
pub uninterp spec fn ed_sig(msg: Seq<u8>, prv_pem: Seq<u8>) -> Seq<char>;

/// Whether `sig` verifies over `msg` under the public key in `pub_pem`.
pub uninterp spec fn ed_verifies(sig: Seq<char>, msg: Seq<u8>, pub_pem: Seq<u8>) -> bool;

/// The PEM of the public key paired with the private key in `prv_pem`.
pub uninterp spec fn ed_pub_of(prv_pem: Seq<u8>) -> Seq<u8>;

/// Whether the bytes in `prv_pem` read as a usable Ed25519 private key.
/// Key parsing is deterministic and signing itself is infallible, so
/// signing succeeds exactly when this holds.
pub uninterp spec fn ed_key_ok(prv_pem: Seq<u8>) -> bool;

/// Whether this verifying key is the mate of that signing key: the
/// hypothesis under which signatures made here verify here.
pub open spec fn key_pair(sk: &SigningKey, vk: &VerifyingKey) -> bool {
    vk.pem@ == ed_pub_of(sk.pem@)
}

/// Relies on `jsonwebtoken::crypto::sign` with `Algorithm::EdDSA` (and
/// `EncodingKey::from_ed_pem` to read the key): deterministic Ed25519 over
/// the message, returning the signature in base64url (ASCII); a signature
/// it produces verifies under the paired public key. It fails exactly when
/// the key bytes do not read as an Ed25519 private key (`from_ed_pem`, and
/// ring's PKCS#8 check inside `sign`, both depend on the key bytes alone;
/// signing itself cannot fail).
#[verifier::external_body]
pub fn ed_sign(msg: &Vec<u8>, key: &SigningKey) -> (r: Option<String>)
    ensures
        r is Some <==> ed_key_ok(key.pem@),
        r matches Some(s) ==> s@ == ed_sig(msg@, key.pem@) && ed_verifies(
            s@,
            msg@,
            ed_pub_of(key.pem@),
        ) && is_ascii_chars(s@),
{
    let k = match jsonwebtoken::EncodingKey::from_ed_pem(&key.pem) {
        Ok(k) => k,
        Err(_) => {
            return None;
        },
    };
    match jsonwebtoken::crypto::sign(msg, &k, jsonwebtoken::Algorithm::EdDSA) {
        Ok(s) => Some(s),
        Err(_) => None,
    }
}

/// Relies on `jsonwebtoken::crypto::verify` with `Algorithm::EdDSA` (and
/// `DecodingKey::from_ed_pem`): deterministic in its arguments, false on
/// any error.
#[verifier::external_body]
pub fn ed_verify(sig: &str, msg: &Vec<u8>, key: &VerifyingKey) -> (r: bool)
    ensures
        r == ed_verifies(sig@, msg@, key.pem@),
{
    let k = match jsonwebtoken::DecodingKey::from_ed_pem(&key.pem) {
        Ok(k) => k,
        Err(_) => {
            return false;
        },
    };
    match jsonwebtoken::crypto::verify(sig, msg, &k, jsonwebtoken::Algorithm::EdDSA) {
        Ok(b) => b,
        Err(_) => false,
    }
}

} // verus!
