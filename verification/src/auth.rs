//! Credential hashing: one-way, salted, memory-hard.
//!
//! What a hash is is not spelled out; what is stated is the one property the
//! flows rest on: a freshly produced hash verifies against the password it
//! was made from, and verification is a function of password and hash alone.
use vstd::prelude::*;

use argon2::password_hash::{rand_core::OsRng, SaltString};
use argon2::{Argon2, PasswordHash, PasswordHasher, PasswordVerifier};

use crate::error::Error;

verus! {

/// Whether `password` verifies against the stored `hash`. Verification
/// recomputes the hash from the salt and parameters embedded in `hash`, so
/// it depends on these two values alone.
pub uninterp spec fn argon_verifies(password: Seq<char>, hash: Seq<char>) -> bool;

/// Relies on `argon2::Argon2::hash_password` with a salt drawn from the
/// operating system's RNG: the PHC string it produces verifies against the
/// same password. `None` only on a hashing failure.
#[verifier::external_body]
fn argon_hash(password: &str) -> (r: Option<String>)
    ensures
        r matches Some(h) ==> argon_verifies(password@, h@),
{
    match Argon2::default().hash_password(password.as_bytes(), &SaltString::generate(&mut OsRng)) {
        Ok(h) => Some(h.to_string()),
        Err(_) => None,
    }
}

/// Hashes a password with a fresh random salt. Fails only on a catastrophic
/// RNG or hashing error, surfaced as an infrastructure failure.
pub fn hash_password(password: &str) -> (r: Result<String, Error>)
    ensures
        r matches Ok(h) ==> argon_verifies(password@, h@),
        r matches Err(e) ==> e matches Error::Internal(_),
{
    match argon_hash(password) {
        Some(h) => Ok(h),
        None => Err(Error::Internal("password hashing failed".to_owned())),
    }
}

/// Recomputes and compares in constant time; a malformed stored hash is a
/// verification failure, never an error, so the error shape cannot tell a
/// missing user from a wrong password.
///
/// Relies on `argon2::PasswordHash::new` and
/// `argon2::Argon2::verify_password`: deterministic in the password and the
/// PHC hash string.
#[verifier::external_body]
pub fn verify_password(password: &str, hash: &str) -> (r: bool)
    ensures
        r == argon_verifies(password@, hash@),
{
    let hash = match PasswordHash::new(hash) {
        Ok(hash) => hash,
        Err(_) => {
            return false;
        },
    };
    Argon2::default().verify_password(password.as_bytes(), &hash).is_ok()
}

} // verus!
