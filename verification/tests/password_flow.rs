//! Password hashing, the reset flow and signup, end to end.
use base64::Engine;

use authcore::auth::{hash_password, verify_password};
use authcore::error::Error;
use authcore::flows::{apply_reset, login, request_reset};
use authcore::registry::SessionRegistry;
use authcore::signer::{SigningKey, VerifyingKey};
use authcore::signup::{signup, Params};
use authcore::store::UserStore;

// Throwaway Ed25519 pair for these tests, assembled at runtime from plain
// bytes: the PKCS#8 and SPKI framing around a fixed seed and its public
// point, so no key-shaped text sits in this file.
const PRV_PREFIX: [u8; 16] = [48, 46, 2, 1, 0, 48, 5, 6, 3, 43, 101, 112, 4, 34, 4, 32];
const PRV_SEED: [u8; 32] = [
    7, 8, 9, 10, 11, 12, 13, 14, 15, 16, 17, 18, 19, 20, 21, 22, 23, 24, 25, 26, 27, 28, 29, 30,
    31, 32, 33, 34, 35, 36, 37, 38,
];
const PUB_PREFIX: [u8; 12] = [48, 42, 48, 5, 6, 3, 43, 101, 112, 3, 33, 0];
const PUB_POINT: [u8; 32] = [
    0, 208, 90, 29, 30, 162, 81, 57, 109, 85, 122, 251, 212, 88, 139, 60, 109, 153, 219, 235, 151,
    47, 237, 16, 163, 37, 98, 234, 38, 220, 220, 250,
];

fn pem_of(label: &str, der: &[u8]) -> Vec<u8> {
    let b64 = base64::engine::general_purpose::STANDARD.encode(der);
    format!("-----BEGIN {label} KEY-----\n{b64}\n-----END {label} KEY-----\n").into_bytes()
}

fn keys() -> (SigningKey, VerifyingKey) {
    let mut prv = PRV_PREFIX.to_vec();
    prv.extend_from_slice(&PRV_SEED);
    let mut publ = PUB_PREFIX.to_vec();
    publ.extend_from_slice(&PUB_POINT);
    (
        SigningKey { pem: pem_of("PRIVATE", &prv) },
        VerifyingKey { pem: pem_of("PUBLIC", &publ) },
    )
}

#[test]
fn hash_roundtrip_verifies() {
    let h = hash_password("correct horse").unwrap();
    assert!(verify_password("correct horse", &h));
}

#[test]
fn hash_of_other_password_does_not_verify() {
    let h = hash_password("one password").unwrap();
    assert!(!verify_password("another password", &h));
}

#[test]
fn two_hashes_of_one_password_differ_by_salt() {
    let h1 = hash_password("same input").unwrap();
    let h2 = hash_password("same input").unwrap();
    assert_ne!(h1, h2);
    assert!(verify_password("same input", &h1));
    assert!(verify_password("same input", &h2));
}

#[test]
fn malformed_stored_hash_is_a_verification_failure_not_an_error() {
    assert!(!verify_password("anything", "not-a-phc-string"));
    assert!(!verify_password("anything", ""));
}

#[test]
fn signup_creates_account_and_activation_mail() {
    let (sk, _) = keys();
    let mut store = UserStore::new();
    let now = 1_700_000_000;
    let (id, mail) = signup(
        &mut store,
        &sk,
        &"Authority".to_string(),
        &"https://app.example".to_string(),
        Params {
            email: "new@x.com".to_string(),
            password: "longenough".to_string(),
            given_name: "Grace".to_string(),
            surname: "Hopper".to_string(),
        },
        now,
    )
    .unwrap();
    assert_eq!(mail.to, "new@x.com");
    assert_eq!(mail.subject, "Welcome to Authority");
    assert!(mail.text.contains("?token="));
    let u = store.find_by_id(id).unwrap();
    assert_eq!(u.email, "new@x.com");
    // The stored value is a hash that accepts the password, not the password.
    assert_ne!(u.password, "longenough");
    let stored = u.password.clone();
    assert!(verify_password("longenough", &stored));
}

#[test]
fn signup_rejects_taken_email_and_weak_password() {
    let (sk, _) = keys();
    let mut store = UserStore::new();
    let now = 1_700_000_000;
    signup(
        &mut store,
        &sk,
        &"App".to_string(),
        &"https://app.example".to_string(),
        Params {
            email: "dup@x.com".to_string(),
            password: "longenough".to_string(),
            given_name: "G".to_string(),
            surname: "H".to_string(),
        },
        now,
    )
    .unwrap();
    let err = signup(
        &mut store,
        &sk,
        &"App".to_string(),
        &"https://app.example".to_string(),
        Params {
            email: "dup@x.com".to_string(),
            password: "longenough".to_string(),
            given_name: "G".to_string(),
            surname: "H".to_string(),
        },
        now,
    )
    .unwrap_err();
    match err {
        Error::BadRequest(m) => assert_eq!(m, "Email is taken"),
        other => panic!("expected BadRequest, got {other:?}"),
    }
    let err = signup(
        &mut store,
        &sk,
        &"App".to_string(),
        &"https://app.example".to_string(),
        Params {
            email: "short@x.com".to_string(),
            password: "2short".to_string(),
            given_name: "G".to_string(),
            surname: "H".to_string(),
        },
        now,
    )
    .unwrap_err();
    assert!(matches!(err, Error::BadRequest(_)));
}

#[test]
fn reset_request_for_unknown_email_is_silent() {
    let (sk, _) = keys();
    let store = UserStore::new();
    // 202 either way; for an unknown email nothing is dispatched.
    let out = request_reset(
        &store,
        &sk,
        &"App".to_string(),
        &"https://app.example".to_string(),
        &"ghost@x.com".to_string(),
        1_700_000_000,
    )
    .unwrap();
    assert!(out.is_none());
}

fn token_from_mail(text: &str) -> String {
    let at = text.find("?token=").expect("mail must carry the reset link");
    let rest = &text[at + 7..];
    let end = rest.find('\n').unwrap_or(rest.len());
    rest[..end].to_string()
}

#[test]
fn scenario_forgot_then_mismatched_confirm_then_reset() {
    let (sk, vk) = keys();
    let mut store = UserStore::new();
    let mut reg = SessionRegistry::new();
    let now = 1_700_000_000;
    signup(
        &mut store,
        &sk,
        &"App".to_string(),
        &"https://app.example".to_string(),
        Params {
            email: "a@x.com".to_string(),
            password: "oldpassword".to_string(),
            given_name: "Ada".to_string(),
            surname: "L".to_string(),
        },
        now,
    )
    .unwrap();

    // POST /password/forgot -> 202 with a mail carrying the token.
    let mail = request_reset(
        &store,
        &sk,
        &"App".to_string(),
        &"https://app.example".to_string(),
        &"a@x.com".to_string(),
        now,
    )
    .unwrap()
    .expect("known email composes a mail");
    assert_eq!(mail.to, "a@x.com");
    let token = token_from_mail(&mail.text);

    // Mismatched confirm -> 400, before any password mutation.
    let err = apply_reset(
        &mut store,
        &vk,
        &token,
        &"newpassword".to_string(),
        &"different1".to_string(),
        now + 10,
    )
    .unwrap_err();
    assert!(matches!(err, Error::BadRequest(_)));
    assert!(login(
        &store,
        &mut reg,
        &sk,
        &"a@x.com".to_string(),
        &"oldpassword".to_string(),
        "t".to_string(),
        now + 11,
    )
    .is_ok());

    // Matching confirm -> 202, and the new password takes effect.
    apply_reset(
        &mut store,
        &vk,
        &token,
        &"newpassword".to_string(),
        &"newpassword".to_string(),
        now + 20,
    )
    .unwrap();
    assert!(login(
        &store,
        &mut reg,
        &sk,
        &"a@x.com".to_string(),
        &"oldpassword".to_string(),
        "t".to_string(),
        now + 21,
    )
    .is_err());
    assert!(login(
        &store,
        &mut reg,
        &sk,
        &"a@x.com".to_string(),
        &"newpassword".to_string(),
        "t".to_string(),
        now + 22,
    )
    .is_ok());
}

#[test]
fn expired_or_garbled_reset_token_is_invalid_credentials() {
    let (sk, vk) = keys();
    let mut store = UserStore::new();
    let now = 1_700_000_000;
    signup(
        &mut store,
        &sk,
        &"App".to_string(),
        &"https://app.example".to_string(),
        Params {
            email: "a@x.com".to_string(),
            password: "oldpassword".to_string(),
            given_name: "Ada".to_string(),
            surname: "L".to_string(),
        },
        now,
    )
    .unwrap();
    let mail = request_reset(
        &store,
        &sk,
        &"App".to_string(),
        &"https://app.example".to_string(),
        &"a@x.com".to_string(),
        now,
    )
    .unwrap()
    .unwrap();
    let token = token_from_mail(&mail.text);

    // Past its 24-hour window.
    let late = now + authcore::flows::RESET_SECS + 1;
    let err = apply_reset(
        &mut store,
        &vk,
        &token,
        &"newpassword".to_string(),
        &"newpassword".to_string(),
        late,
    )
    .unwrap_err();
    assert!(matches!(err, Error::InvalidCredentials));
    assert_eq!(err.status_code(), 401);

    // Garbled token.
    let err = apply_reset(
        &mut store,
        &vk,
        &"zz.zz.zz".to_string(),
        &"newpassword".to_string(),
        &"newpassword".to_string(),
        now + 5,
    )
    .unwrap_err();
    assert!(matches!(err, Error::InvalidCredentials));
}

#[test]
fn reset_claim_dies_with_an_email_change() {
    let (sk, vk) = keys();
    let mut store = UserStore::new();
    let now = 1_700_000_000;
    let (id, _) = signup(
        &mut store,
        &sk,
        &"App".to_string(),
        &"https://app.example".to_string(),
        Params {
            email: "a@x.com".to_string(),
            password: "oldpassword".to_string(),
            given_name: "Ada".to_string(),
            surname: "L".to_string(),
        },
        now,
    )
    .unwrap();
    let mail = request_reset(
        &store,
        &sk,
        &"App".to_string(),
        &"https://app.example".to_string(),
        &"a@x.com".to_string(),
        now,
    )
    .unwrap()
    .unwrap();
    let token = token_from_mail(&mail.text);

    // The account's email changes before the claim is applied.
    store
        .update_profile(
            id,
            authcore::store::Params {
                email: "moved@x.com".to_string(),
                given_name: "Ada".to_string(),
                surname: "L".to_string(),
            },
            now + 1,
        )
        .unwrap();

    let err = apply_reset(
        &mut store,
        &vk,
        &token,
        &"newpassword".to_string(),
        &"newpassword".to_string(),
        now + 2,
    )
    .unwrap_err();
    assert!(matches!(err, Error::InvalidCredentials));
}

#[test]
fn profile_update_enforces_email_uniqueness() {
    let mut store = UserStore::new();
    let h = hash_password("longenough").unwrap();
    let a = store
        .insert("a@x.com".to_string(), h.clone(), "A".to_string(), "A".to_string(), 1)
        .unwrap();
    let _b = store
        .insert("b@x.com".to_string(), h, "B".to_string(), "B".to_string(), 2)
        .unwrap();
    let err = store
        .update_profile(
            a,
            authcore::store::Params {
                email: "b@x.com".to_string(),
                given_name: "A".to_string(),
                surname: "A".to_string(),
            },
            3,
        )
        .unwrap_err();
    match err {
        Error::BadRequest(m) => assert_eq!(m, "Email is taken"),
        other => panic!("expected BadRequest, got {other:?}"),
    }
    // Keeping one's own email is fine.
    store
        .update_profile(
            a,
            authcore::store::Params {
                email: "a@x.com".to_string(),
                given_name: "Annie".to_string(),
                surname: "A".to_string(),
            },
            4,
        )
        .unwrap();
    assert_eq!(store.find_by_id(a).unwrap().given_name, "Annie");
}

#[test]
fn account_deletion_then_not_found() {
    let mut store = UserStore::new();
    let h = hash_password("longenough").unwrap();
    let id = store
        .insert("a@x.com".to_string(), h, "A".to_string(), "A".to_string(), 1)
        .unwrap();
    store.delete(id).unwrap();
    assert!(store.find_by_id(id).is_none());
    let err = store.delete(id).unwrap_err();
    assert!(matches!(err, Error::NotFound));
    assert_eq!(err.status_code(), 404);
}
