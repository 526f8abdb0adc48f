//! End-to-end exercises of login, the per-request pipeline, logout and
//! bulk revocation, with real signing keys and real password hashing.
use base64::Engine;

use authcore::auth::hash_password;
use authcore::claims::parse_auth_payload;
use authcore::error::Error;
use authcore::flows::{agent_or_unknown, login, logout};
use authcore::pipeline::{authenticate, AuthRequest, Method};
use authcore::registry::SessionRegistry;
use authcore::signer::{SigningKey, VerifyingKey};
use authcore::store::UserStore;
use authcore::token::check_token;

// Throwaway Ed25519 pair for these tests, assembled at runtime from plain
// bytes: the PKCS#8 and SPKI framing around a fixed seed and its public
// point, so no key-shaped text sits in this file.
const PRV_PREFIX: [u8; 16] = [48, 46, 2, 1, 0, 48, 5, 6, 3, 43, 101, 112, 4, 34, 4, 32];
const PRV_SEED: [u8; 32] = [
    7, 8, 9, 10, 11, 12, 13, 14, 15, 16, 17, 18, 19, 20, 21, 22, 23, 24, 25, 26, 27, 28, 29, 30,
    31, 32, 33, 34, 35, 36, 37, 38,
];
const PUB_PREFIX: [u8; 12] = [48, 42, 48, 5, 6, 3, 43, 101, 112, 3, 33, 0];
const PUB_POINT: [u8; 32] = [
    0, 208, 90, 29, 30, 162, 81, 57, 109, 85, 122, 251, 212, 88, 139, 60, 109, 153, 219, 235, 151,
    47, 237, 16, 163, 37, 98, 234, 38, 220, 220, 250,
];

fn pem_of(label: &str, der: &[u8]) -> Vec<u8> {
    let b64 = base64::engine::general_purpose::STANDARD.encode(der);
    format!("-----BEGIN {label} KEY-----\n{b64}\n-----END {label} KEY-----\n").into_bytes()
}

fn keys() -> (SigningKey, VerifyingKey) {
    let mut prv = PRV_PREFIX.to_vec();
    prv.extend_from_slice(&PRV_SEED);
    let mut publ = PUB_PREFIX.to_vec();
    publ.extend_from_slice(&PUB_POINT);
    (
        SigningKey { pem: pem_of("PRIVATE", &prv) },
        VerifyingKey { pem: pem_of("PUBLIC", &publ) },
    )
}

fn seeded_store(email: &str, password: &str) -> (UserStore, u64) {
    let mut store = UserStore::new();
    let hash = hash_password(password).unwrap();
    let id = store
        .insert(
            email.to_string(),
            hash,
            "Ada".to_string(),
            "Lovelace".to_string(),
            1000,
        )
        .unwrap();
    (store, id)
}

fn bearer_request(token: &str, method: Method) -> AuthRequest {
    AuthRequest {
        method,
        bearer_header: Some(format!("Bearer {token}")),
        auth_cookie: None,
        csrf_header: None,
        csrf_cookie: None,
    }
}

#[test]
fn login_mints_a_token_that_replays_to_the_same_user() {
    let (sk, vk) = keys();
    let (store, id) = seeded_store("a@x.com", "secret1");
    let mut reg = SessionRegistry::new();
    let now = 1_700_000_000;

    let token = login(
        &store,
        &mut reg,
        &sk,
        &"a@x.com".to_string(),
        &"secret1".to_string(),
        agent_or_unknown(None),
        now,
    )
    .unwrap();
    assert!(!token.is_empty());

    let req = bearer_request(&token, Method::Get);
    let claim = authenticate(&req, &vk, &mut reg, now + 5).unwrap();
    assert_eq!(claim.user_id, id);

    // The profile the downstream handler would read belongs to the login.
    let user = store.find_by_id(claim.user_id).unwrap();
    assert_eq!(user.email, "a@x.com");
}

#[test]
fn scenario_login_me_logout_replay() {
    let (sk, vk) = keys();
    let (store, id) = seeded_store("a@x.com", "secret1");
    let mut reg = SessionRegistry::new();
    let now = 1_700_000_000;

    // POST /login -> 201 with a non-empty token.
    let token = login(
        &store,
        &mut reg,
        &sk,
        &"a@x.com".to_string(),
        &"secret1".to_string(),
        "test-agent".to_string(),
        now,
    )
    .unwrap();
    assert!(!token.is_empty());

    // GET /users/me with the token -> 200 with that user's profile.
    let req = bearer_request(&token, Method::Get);
    let claim = authenticate(&req, &vk, &mut reg, now + 1).unwrap();
    assert_eq!(claim.user_id, id);
    assert_eq!(store.find_by_id(id).unwrap().given_name, "Ada");

    // DELETE /logout -> 204.
    logout(&mut reg, claim.uuid, claim.user_id).unwrap();

    // Replaying the very same token -> 401, although its signature still
    // verifies and its expiry lies far in the future.
    let payload = check_token(&token, &vk).expect("signature must still verify");
    let still_valid = parse_auth_payload(&payload).unwrap();
    assert!(now + 2 < still_valid.exp);
    let req2 = bearer_request(&token, Method::Get);
    let err = authenticate(&req2, &vk, &mut reg, now + 2).unwrap_err();
    assert_eq!(err.status_code(), 401);
    assert!(matches!(err, Error::Unauthorized));
}

#[test]
fn wrong_password_and_unknown_email_fail_alike() {
    let (sk, _) = keys();
    let (store, _) = seeded_store("a@x.com", "secret1");
    let mut reg = SessionRegistry::new();
    let now = 1_700_000_000;

    let wrong = login(
        &store,
        &mut reg,
        &sk,
        &"a@x.com".to_string(),
        &"not-it".to_string(),
        "t".to_string(),
        now,
    )
    .unwrap_err();
    let unknown = login(
        &store,
        &mut reg,
        &sk,
        &"b@x.com".to_string(),
        &"secret1".to_string(),
        "t".to_string(),
        now,
    )
    .unwrap_err();
    assert!(matches!(wrong, Error::InvalidCredentials));
    assert!(matches!(unknown, Error::InvalidCredentials));
    assert_eq!(wrong.status_code(), 401);
    assert_eq!(unknown.status_code(), 401);
}

#[test]
fn malformed_email_is_rejected_at_the_boundary() {
    let (sk, _) = keys();
    let (store, _) = seeded_store("a@x.com", "secret1");
    let mut reg = SessionRegistry::new();
    let err = login(
        &store,
        &mut reg,
        &sk,
        &"not-an-email".to_string(),
        &"secret1".to_string(),
        "t".to_string(),
        1_700_000_000,
    )
    .unwrap_err();
    assert!(matches!(err, Error::BadRequest(_)));
    assert_eq!(err.status_code(), 400);
}

#[test]
fn expired_token_is_rejected() {
    let (sk, vk) = keys();
    let (store, _) = seeded_store("a@x.com", "secret1");
    let mut reg = SessionRegistry::new();
    let now = 1_700_000_000;
    let token = login(
        &store,
        &mut reg,
        &sk,
        &"a@x.com".to_string(),
        &"secret1".to_string(),
        "t".to_string(),
        now,
    )
    .unwrap();
    let much_later = now + authcore::flows::SESSION_SECS + 1;
    let req = bearer_request(&token, Method::Get);
    let err = authenticate(&req, &vk, &mut reg, much_later).unwrap_err();
    assert!(matches!(err, Error::Unauthorized));
}

#[test]
fn tampered_token_is_rejected() {
    let (sk, vk) = keys();
    let (store, _) = seeded_store("a@x.com", "secret1");
    let mut reg = SessionRegistry::new();
    let now = 1_700_000_000;
    let token = login(
        &store,
        &mut reg,
        &sk,
        &"a@x.com".to_string(),
        &"secret1".to_string(),
        "t".to_string(),
        now,
    )
    .unwrap();

    // Flip one char of the payload part.
    let dot = token.find('.').unwrap();
    let mut chars: Vec<char> = token.chars().collect();
    let i = dot + 3;
    chars[i] = if chars[i] == 'A' { 'B' } else { 'A' };
    let forged: String = chars.into_iter().collect();

    let req = bearer_request(&forged, Method::Get);
    let err = authenticate(&req, &vk, &mut reg, now + 1).unwrap_err();
    assert!(matches!(err, Error::Unauthorized));
}

#[test]
fn cookie_carried_token_authenticates_too() {
    let (sk, vk) = keys();
    let (store, id) = seeded_store("a@x.com", "secret1");
    let mut reg = SessionRegistry::new();
    let now = 1_700_000_000;
    let token = login(
        &store,
        &mut reg,
        &sk,
        &"a@x.com".to_string(),
        &"secret1".to_string(),
        "t".to_string(),
        now,
    )
    .unwrap();
    let req = AuthRequest {
        method: Method::Get,
        bearer_header: None,
        auth_cookie: Some(token),
        csrf_header: None,
        csrf_cookie: None,
    };
    let claim = authenticate(&req, &vk, &mut reg, now + 1).unwrap();
    assert_eq!(claim.user_id, id);
}

#[test]
fn mutating_request_needs_matching_csrf_pair() {
    let (sk, vk) = keys();
    let (store, _) = seeded_store("a@x.com", "secret1");
    let mut reg = SessionRegistry::new();
    let now = 1_700_000_000;
    let token = login(
        &store,
        &mut reg,
        &sk,
        &"a@x.com".to_string(),
        &"secret1".to_string(),
        "t".to_string(),
        now,
    )
    .unwrap();

    // Valid bearer token, no CSRF pair, mutating method -> 403.
    let req = bearer_request(&token, Method::Post);
    let err = authenticate(&req, &vk, &mut reg, now + 1).unwrap_err();
    assert!(matches!(err, Error::Forbidden));
    assert_eq!(err.status_code(), 403);

    // Mismatched pair -> 403.
    let mut req = bearer_request(&token, Method::Delete);
    req.csrf_header = Some("aaa".to_string());
    req.csrf_cookie = Some("bbb".to_string());
    let err = authenticate(&req, &vk, &mut reg, now + 2).unwrap_err();
    assert!(matches!(err, Error::Forbidden));

    // Matching pair -> authorized.
    let mut req = bearer_request(&token, Method::Post);
    req.csrf_header = Some("same-value".to_string());
    req.csrf_cookie = Some("same-value".to_string());
    assert!(authenticate(&req, &vk, &mut reg, now + 3).is_ok());

    // The same request as a safe read needs no CSRF header at all.
    let req = bearer_request(&token, Method::Get);
    assert!(authenticate(&req, &vk, &mut reg, now + 4).is_ok());
}

#[test]
fn delete_all_except_spares_the_current_session() {
    let mut reg = SessionRegistry::new();
    let a1 = reg.create(1, 11, "one".to_string(), 10).unwrap();
    let _a2 = reg.create(1, 12, "two".to_string(), 11).unwrap();
    let _a3 = reg.create(1, 13, "three".to_string(), 12).unwrap();
    let b1 = reg.create(2, 21, "other".to_string(), 13).unwrap();

    let removed = reg.delete_all_except(1, a1.session_id);
    assert_eq!(removed, 2);

    // The current session and the other user's session survive.
    assert!(reg.find_active(a1.session_id).is_some());
    assert!(reg.find_active(b1.session_id).is_some());
    // Every other session of user 1 is gone.
    assert!(reg.find_active(12).is_none());
    assert!(reg.find_active(13).is_none());
}

#[test]
fn logout_checks_ownership() {
    let mut reg = SessionRegistry::new();
    let rec = reg.create(7, 77, "agent".to_string(), 10).unwrap();
    // Another user cannot delete this session by replaying its identifier.
    let err = logout(&mut reg, rec.session_id, 8).unwrap_err();
    assert!(matches!(err, Error::Unauthorized));
    assert!(reg.find_active(rec.session_id).is_some());
    // The owner can.
    logout(&mut reg, rec.session_id, 7).unwrap();
    assert!(reg.find_active(rec.session_id).is_none());
    // A second logout finds nothing.
    let err = logout(&mut reg, rec.session_id, 7).unwrap_err();
    assert!(matches!(err, Error::Unauthorized));
}

#[test]
fn session_conflict_is_surfaced_not_ignored() {
    let mut reg = SessionRegistry::new();
    assert!(reg.create(1, 5, "a".to_string(), 1).is_some());
    assert!(reg.create(2, 5, "b".to_string(), 2).is_none());
}

#[test]
fn unreadable_signing_key_is_an_internal_failure() {
    let (_, _) = keys();
    let bad_sk = SigningKey { pem: b"not a pem".to_vec() };
    let (store, _) = seeded_store("a@x.com", "secret1");
    let mut reg = SessionRegistry::new();
    let err = login(
        &store,
        &mut reg,
        &bad_sk,
        &"a@x.com".to_string(),
        &"secret1".to_string(),
        "t".to_string(),
        1_700_000_000,
    )
    .unwrap_err();
    assert!(matches!(err, Error::Internal(_)));
    assert_eq!(err.status_code(), 500);
}

#[test]
fn requests_without_a_token_are_unauthorized() {
    let (_, vk) = keys();
    let mut reg = SessionRegistry::new();
    let bare = AuthRequest {
        method: Method::Get,
        bearer_header: None,
        auth_cookie: None,
        csrf_header: None,
        csrf_cookie: None,
    };
    let err = authenticate(&bare, &vk, &mut reg, 1).unwrap_err();
    assert!(matches!(err, Error::Unauthorized));

    // A malformed Authorization header falls back to the cookie; with no
    // cookie either, the request stays anonymous.
    let malformed = AuthRequest {
        method: Method::Get,
        bearer_header: Some("Token abc".to_string()),
        auth_cookie: None,
        csrf_header: None,
        csrf_cookie: None,
    };
    let err = authenticate(&malformed, &vk, &mut reg, 1).unwrap_err();
    assert!(matches!(err, Error::Unauthorized));

    // Garbage in the cookie is no better.
    let garbage = AuthRequest {
        method: Method::Get,
        bearer_header: None,
        auth_cookie: Some("h.p.s".to_string()),
        csrf_header: None,
        csrf_cookie: None,
    };
    let err = authenticate(&garbage, &vk, &mut reg, 1).unwrap_err();
    assert!(matches!(err, Error::Unauthorized));
}

#[test]
fn failed_login_leaves_no_session() {
    let (sk, _) = keys();
    let (store, id) = seeded_store("a@x.com", "secret1");
    let mut reg = SessionRegistry::new();
    let err = login(
        &store,
        &mut reg,
        &sk,
        &"a@x.com".to_string(),
        &"wrong-password".to_string(),
        "t".to_string(),
        1_700_000_000,
    )
    .unwrap_err();
    assert!(matches!(err, Error::InvalidCredentials));
    // Bulk revocation with nothing to keep finds nothing to remove.
    assert_eq!(reg.delete_all_except(id, 0), 0);
}

#[test]
fn current_session_flag() {
    let mut reg = SessionRegistry::new();
    let mine = reg.create(1, 41, "laptop".to_string(), 10).unwrap();
    let other = reg.create(1, 42, "phone".to_string(), 11).unwrap();
    assert!(authcore::registry::is_current_session(&mine, 41));
    assert!(!authcore::registry::is_current_session(&other, 41));
}
