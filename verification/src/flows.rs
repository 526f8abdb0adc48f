//! The credential flows: login, logout, reset-request and reset-apply.
//!
//! Lookups that fail for different reasons surface as the same error on
//! purpose: a wrong password, an unknown email and a stale reset claim must
//! be indistinguishable to the caller.
use vstd::prelude::*;

use validator::ValidateEmail;

use crate::auth::{argon_verifies, hash_password, verify_password};
use crate::claims::{
    auth_payload, auth_payload_bytes, parse_reset_payload, reset_payload, reset_payload_bytes,
    AuthClaim, ResetClaim,
};
use crate::error::Error;
use crate::mail::{mail_text, reset_message, MailMessage};
use crate::registry::{has_session, SessionModel, SessionRegistry};
use crate::signer::{ed_key_ok, ed_pub_of, SigningKey, VerifyingKey};
use crate::store::{has_email, UserModel, UserStore};
use crate::token::{check_token, lemma_token_payload_unique, sign_payload, signed_token, token_accepted};
use vstd::string::StrSliceExecFns;

verus! {

/// How long a bearer session's embedded expiry lies in the future:
/// intentionally long, since revocation is registry-backed.
pub const SESSION_SECS: u64 = 365 * 86400;

/// How long a reset or signup claim stays valid.
pub const RESET_SECS: u64 = 86400;

/// Relies on `uuid::Uuid::new_v4`: a fresh random 128-bit identifier;
/// nothing is assumed about its value.
#[verifier::external_body]
pub fn fresh_session_id() -> (r: u128) {
    uuid::Uuid::new_v4().as_u128()
}

/// Whether a string passes the email shape check (named, not spelled out).
pub uninterp spec fn email_ok(s: Seq<char>) -> bool;

/// Relies on `validator::ValidateEmail::validate_email` for `String`: an
/// HTML5-style email check, deterministic in the string; an empty string
/// never passes.
#[verifier::external_body]
pub fn is_valid_email(s: &String) -> (r: bool)
    ensures
        r == email_ok(s@),
        r ==> s@.len() > 0,
{
    s.validate_email()
}

/// The reset link the url crate builds from the application's base address:
/// path segment `password`, query pair `token`.
pub uninterp spec fn reset_link_of(base: Seq<char>, token: Seq<char>) -> Seq<char>;

/// Whether the base address parses as an absolute URL that can carry path
/// segments.
pub uninterp spec fn base_url_ok(base: Seq<char>) -> bool;

/// Relies on `url::Url::parse`, `Url::path_segments_mut` and
/// `Url::query_pairs_mut`: deterministic in the base address and token.
#[verifier::external_body]
pub fn reset_link(base: &str, token: &str) -> (r: Option<String>)
    ensures
        r is Some <==> base_url_ok(base@),
        r matches Some(l) ==> l@ == reset_link_of(base@, token@),
{
    let mut link = match url::Url::parse(base) {
        Ok(u) => u,
        Err(_) => return None,
    };
    match link.path_segments_mut() {
        Ok(mut seg) => {
            seg.push("password");
        },
        Err(_) => return None,
    }
    link.query_pairs_mut().append_pair("token", token);
    Some(String::from(link.as_str()))
}

/// The user agent recorded for a session; a missing or unreadable header
/// becomes `Unknown`.
pub fn agent_or_unknown(agent: Option<String>) -> (r: String)
    ensures
        agent matches Some(a) ==> r@ == a@,
        agent is None ==> r@ == "Unknown"@,
{
    match agent {
        Some(a) => a,
        None => "Unknown".to_owned(),
    }
}

/// Some account carries this email and accepts this password.
pub open spec fn cred_ok(users: Seq<UserModel>, email: Seq<char>, password: Seq<char>) -> bool {
    exists|i: int|
        0 <= i < users.len() && #[trigger] users[i].email == email && argon_verifies(
            password,
            users[i].password,
        )
}

/// The account carrying this email (emails are unique in the store).
pub open spec fn the_user(users: Seq<UserModel>, email: Seq<char>) -> UserModel {
    users[choose|i: int| 0 <= i < users.len() && users[i].email == email]
}

/// The record a successful login appends.
pub open spec fn session_model(
    rid: u64,
    uid: u64,
    sid: u128,
    agent: Seq<char>,
    now: u64,
) -> SessionModel {
    SessionModel {
        id: rid,
        user_id: uid,
        session_id: sid,
        agent: agent,
        created_at: now,
        updated_at: now,
    }
}

/// Login inputs the boundary accepts: a well-formed email and a non-empty
/// password.
pub open spec fn login_inputs_ok(email: Seq<char>, password: Seq<char>) -> bool {
    email_ok(email) && password.len() > 0
}

/// Verifies credentials and, on success, registers a fresh session and
/// mints its bearer token.
///
/// An unknown email and a wrong password fail identically. The token's
/// embedded expiry is `now + SESSION_SECS`; the session record is the
/// revocation handle for it, and it is created exactly once per successful
/// login: every failure leaves the registry as it was.
pub fn login(
    store: &UserStore,
    reg: &mut SessionRegistry,
    key: &SigningKey,
    email: &String,
    password: &String,
    agent: String,
    now: u64,
) -> (r: Result<String, Error>)
    requires
        old(reg).inv(),
        store.inv(),
        now + SESSION_SECS <= u64::MAX,
    ensures
        final(reg).inv(),
        !login_inputs_ok(email@, password@) ==> (r matches Err(e) && e matches Error::BadRequest(
            _,
        )) && final(reg)@ == old(reg)@,
        login_inputs_ok(email@, password@) && !cred_ok(store@, email@, password@) ==> r == Err::<
            String,
            Error,
        >(Error::InvalidCredentials) && final(reg)@ == old(reg)@,
        login_inputs_ok(email@, password@) && cred_ok(store@, email@, password@) ==> (match r {
            Ok(t) => exists|sid: u128, rid: u64|
                #![trigger session_model(rid, the_user(store@, email@).id, sid, agent@, now)]
                !has_session(old(reg)@, sid) && final(reg)@ == old(reg)@.push(
                    session_model(rid, the_user(store@, email@).id, sid, agent@, now),
                ) && t@ == signed_token(
                    auth_payload(the_user(store@, email@).id, sid, (now + SESSION_SECS) as u64),
                    key.pem@,
                ) && token_accepted(
                    t@,
                    auth_payload(the_user(store@, email@).id, sid, (now + SESSION_SECS) as u64),
                    ed_pub_of(key.pem@),
                ),
            Err(e) => e matches Error::Internal(_) && final(reg)@ == old(reg)@,
        }),
        r is Ok ==> login_inputs_ok(email@, password@) && cred_ok(store@, email@, password@),
{
    if !is_valid_email(email) || password.as_str().is_empty() {
        return Err(Error::BadRequest("invalid email or password".to_owned()));
    }
    let u = match store.find_by_email(email) {
        Some(u) => u,
        None => {
            return Err(Error::InvalidCredentials);
        },
    };
    proof {
        assert(exists|i: int| 0 <= i < store@.len() && store@[i] == u@);
        let k = choose|i: int| 0 <= i < store@.len() && store@[i] == u@;
        let j = choose|i: int| 0 <= i < store@.len() && store@[i].email == email@;
        assert(0 <= k < store@.len() && store@[k] == u@);
        assert(0 <= j < store@.len() && store@[j].email == email@);
        assert(store@[k].email == email@);
        if j < k {
            assert(store@[j].email != store@[k].email);
        } else if k < j {
            assert(store@[k].email != store@[j].email);
        }
        assert(j == k);
        assert(the_user(store@, email@) == u@);
    }
    if !verify_password(password.as_str(), u.password.as_str()) {
        proof {
            assert forall|i: int|
                0 <= i < store@.len() && #[trigger] store@[i].email == email@ implies !argon_verifies(
                password@,
                store@[i].password,
            ) by {
                assert(exists|i2: int| 0 <= i2 < store@.len() && store@[i2] == u@);
                let k = choose|i2: int| 0 <= i2 < store@.len() && store@[i2] == u@;
                assert(0 <= k < store@.len() && store@[k] == u@);
                assert(store@[k].email == email@);
                if i < k {
                    assert(store@[i].email != store@[k].email);
                } else if k < i {
                    assert(store@[k].email != store@[i].email);
                }
                assert(i == k);
            }
        }
        return Err(Error::InvalidCredentials);
    }
    proof {
        assert(cred_ok(store@, email@, password@));
    }
    let sid = fresh_session_id();
    let exp = now + SESSION_SECS;
    let claim = AuthClaim { user_id: u.id, uuid: sid, exp };
    let payload = auth_payload_bytes(&claim);
    // Sign before touching the registry, so no record survives a failure.
    let token = match sign_payload(&payload, key) {
        Some(t) => t,
        None => {
            return Err(Error::Internal("token signing failed".to_owned()));
        },
    };
    let rec = match reg.create(u.id, sid, agent, now) {
        Some(rec) => rec,
        None => {
            return Err(Error::Internal("session identifier collision".to_owned()));
        },
    };
    proof {
        assert(rec@ == session_model(rec@.id, u@.id, sid, rec@.agent, now));
    }
    Ok(token)
}

/// Deletes the caller's own session; an already-gone session surfaces as
/// `Unauthorized`.
pub fn logout(reg: &mut SessionRegistry, session_id: u128, user_id: u64) -> (r: Result<(), Error>)
    requires
        old(reg).inv(),
    ensures
        final(reg).inv(),
        (exists|i: int|
            0 <= i < old(reg)@.len() && #[trigger] old(reg)@[i].session_id == session_id && old(reg)@[i].user_id == user_id) ==> r is Ok && !has_session(final(reg)@, session_id) && (
        exists|i: int|
            0 <= i < old(reg)@.len() && #[trigger] old(reg)@[i].session_id == session_id && old(reg)@[i].user_id == user_id && final(reg)@ == old(reg)@.remove(i)),
        !(exists|i: int|
            0 <= i < old(reg)@.len() && #[trigger] old(reg)@[i].session_id == session_id && old(reg)@[i].user_id == user_id) ==> r == Err::<(), Error>(Error::Unauthorized) && final(reg)@ == old(reg)@,
{
    match reg.delete(session_id, user_id) {
        Ok(()) => Ok(()),
        Err(_) => Err(Error::Unauthorized),
    }
}

/// Whether this token proves a reset claim for `(uid, em)` that has not
/// expired at `now`.
pub open spec fn reset_ok(
    token: Seq<char>,
    pub_pem: Seq<u8>,
    now: u64,
    uid: u64,
    em: Seq<char>,
    exp: u64,
) -> bool {
    token_accepted(token, reset_payload(uid, em, exp), pub_pem) && now < exp
}

/// Mints a reset claim for the account carrying `email` and composes the
/// mail that carries its link. Whether or not the account exists, the
/// caller sees success: `Ok(None)` leaks nothing and sends nothing.
pub fn request_reset(
    store: &UserStore,
    key: &SigningKey,
    app_name: &String,
    base_url: &String,
    email: &String,
    now: u64,
) -> (r: Result<Option<MailMessage>, Error>)
    requires
        store.inv(),
        now + RESET_SECS <= u64::MAX,
    ensures
        !email_ok(email@) ==> (r matches Err(e) && e matches Error::BadRequest(_)),
        email_ok(email@) && !has_email(store@, email@) ==> (r matches Ok(o) && o is None),
        email_ok(email@) && has_email(store@, email@) ==> (match r {
            Ok(o) => o matches Some(m) && ({
                let u = the_user(store@, email@);
                let p = reset_payload(u.id, u.email, (now + RESET_SECS) as u64);
                let t = signed_token(p, key.pem@);
                &&& base_url_ok(base_url@)
                &&& token_accepted(t, p, ed_pub_of(key.pem@))
                &&& m.to@ == u.email
                &&& m.subject@ == app_name@ + " Password Reset"@
                &&& m.text@ == mail_text(
                    u.given_name,
                    "You requested a password reset link."@,
                    reset_link_of(base_url@, t),
                    app_name@,
                )
            }),
            Err(e) => e matches Error::Internal(_) && !(ed_key_ok(key.pem@) && base_url_ok(
                base_url@,
            )),
        }),
        email_ok(email@) && has_email(store@, email@) && ed_key_ok(key.pem@) && base_url_ok(
            base_url@,
        ) ==> r is Ok,
{
    if !is_valid_email(email) {
        return Err(Error::BadRequest("invalid email".to_owned()));
    }
    let u = match store.find_by_email(email) {
        Some(u) => u,
        None => {
            return Ok(None);
        },
    };
    proof {
        assert(exists|i: int| 0 <= i < store@.len() && store@[i] == u@);
        let k = choose|i: int| 0 <= i < store@.len() && store@[i] == u@;
        let j = choose|i: int| 0 <= i < store@.len() && store@[i].email == email@;
        assert(0 <= k < store@.len() && store@[k] == u@);
        assert(0 <= j < store@.len() && store@[j].email == email@);
        assert(store@[k].email == email@);
        if j < k {
            assert(store@[j].email != store@[k].email);
        } else if k < j {
            assert(store@[k].email != store@[j].email);
        }
        assert(j == k);
        assert(the_user(store@, email@) == u@);
    }
    let claim = ResetClaim { user_id: u.id, email: u.email.clone(), exp: now + RESET_SECS };
    let payload = reset_payload_bytes(&claim);
    let token = match sign_payload(&payload, key) {
        Some(t) => t,
        None => {
            return Err(Error::Internal("token signing failed".to_owned()));
        },
    };
    let link = match reset_link(base_url.as_str(), token.as_str()) {
        Some(l) => l,
        None => {
            return Err(Error::Internal("reset link could not be built".to_owned()));
        },
    };
    let m = reset_message(app_name, &u.email, &u.given_name, &link);
    Ok(Some(m))
}

/// Reset inputs the boundary accepts: a non-empty token and two matching
/// passwords of at least eight chars.
pub open spec fn reset_inputs_ok(token: Seq<char>, password: Seq<char>, confirm: Seq<char>) -> bool {
    token.len() > 0 && password.len() >= 8 && confirm.len() >= 8 && password == confirm
}

/// Verifies a reset claim and rehashes the account's password.
///
/// The account must match the claim on id *and* email, so a claim minted
/// before an email change matches nobody. Any verification failure is the
/// same `InvalidCredentials`.
pub fn apply_reset(
    store: &mut UserStore,
    key: &VerifyingKey,
    token: &String,
    password: &String,
    confirm: &String,
    now: u64,
) -> (r: Result<(), Error>)
    requires
        old(store).inv(),
    ensures
        final(store).inv(),
        !reset_inputs_ok(token@, password@, confirm@) ==> (r matches Err(e) && e matches Error::BadRequest(_))
            && final(store)@ == old(store)@,
        reset_inputs_ok(token@, password@, confirm@) && !(exists|uid: u64, em: Seq<char>, exp: u64|
            #[trigger] reset_ok(token@, key.pem@, now, uid, em, exp)) ==> r == Err::<(), Error>(
            Error::InvalidCredentials,
        ) && final(store)@ == old(store)@,
        reset_inputs_ok(token@, password@, confirm@) && (exists|uid: u64, em: Seq<char>, exp: u64|
            #[trigger] reset_ok(token@, key.pem@, now, uid, em, exp)) ==> (match r {
            Ok(_) => exists|uid: u64, em: Seq<char>, exp: u64, i: int, h: Seq<char>|
                #![trigger reset_ok(token@, key.pem@, now, uid, em, exp), old(store)@[i], argon_verifies(password@, h)]
                reset_ok(token@, key.pem@, now, uid, em, exp) && 0 <= i < old(store)@.len() && old(store)@[i].id == uid && old(store)@[i].email == em && argon_verifies(password@, h)
                    && final(store)@ == old(store)@.update(
                    i,
                    UserModel { password: h, updated_at: now, ..old(store)@[i] },
                ),
            Err(e) => (e matches Error::InvalidCredentials && final(store)@ == old(store)@ && (
            forall|uid: u64, em: Seq<char>, exp: u64|
                #[trigger] reset_ok(token@, key.pem@, now, uid, em, exp) ==> !(exists|i: int|
                    0 <= i < old(store)@.len() && #[trigger] old(store)@[i].id == uid && old(store)@[i].email == em))) || (e matches Error::Internal(_) && final(store)@ == old(store)@ && (
            exists|uid: u64, em: Seq<char>, exp: u64, i: int|
                #![trigger reset_ok(token@, key.pem@, now, uid, em, exp), old(store)@[i]]
                reset_ok(token@, key.pem@, now, uid, em, exp) && 0 <= i < old(store)@.len() && old(store)@[i].id == uid && old(store)@[i].email == em)),
        }),
{
    if token.as_str().is_empty() || password.as_str().unicode_len() < 8
        || confirm.as_str().unicode_len() < 8 || !password.eq(confirm) {
        return Err(Error::BadRequest("invalid reset parameters".to_owned()));
    }
    let payload = match check_token(token.as_str(), key) {
        Some(p) => p,
        None => {
            proof {
                assert forall|uid: u64, em: Seq<char>, exp: u64|
                    !(#[trigger] reset_ok(token@, key.pem@, now, uid, em, exp)) by {}
            }
            return Err(Error::InvalidCredentials);
        },
    };
    let claim = match parse_reset_payload(&payload) {
        Some(c) => c,
        None => {
            proof {
                assert forall|uid: u64, em: Seq<char>, exp: u64|
                    !(#[trigger] reset_ok(token@, key.pem@, now, uid, em, exp)) by {
                    if reset_ok(token@, key.pem@, now, uid, em, exp) {
                        lemma_token_payload_unique(
                            token@,
                            payload@,
                            reset_payload(uid, em, exp),
                            key.pem@,
                        );
                    }
                }
            }
            return Err(Error::InvalidCredentials);
        },
    };
    if now >= claim.exp {
        proof {
            assert forall|uid: u64, em: Seq<char>, exp: u64|
                !(#[trigger] reset_ok(token@, key.pem@, now, uid, em, exp)) by {
                if reset_ok(token@, key.pem@, now, uid, em, exp) {
                    lemma_token_payload_unique(
                        token@,
                        payload@,
                        reset_payload(uid, em, exp),
                        key.pem@,
                    );
                }
            }
        }
        return Err(Error::InvalidCredentials);
    }
    // The token proves this claim and no other.
    proof {
        assert(reset_ok(token@, key.pem@, now, claim.user_id, claim.email@, claim.exp));
        assert forall|uid: u64, em: Seq<char>, exp: u64|
            #[trigger] reset_ok(token@, key.pem@, now, uid, em, exp) implies uid == claim.user_id
            && em == claim.email@ && exp == claim.exp by {
            lemma_token_payload_unique(token@, payload@, reset_payload(uid, em, exp), key.pem@);
        }
    }
    match store.find_by_id_and_email(claim.user_id, &claim.email) {
        Some(_) => {},
        None => {
            return Err(Error::InvalidCredentials);
        },
    }
    let hash = match hash_password(password.as_str()) {
        Ok(h) => h,
        Err(e) => {
            return Err(e);
        },
    };
    let ghost hg = hash@;
    match store.update_password(claim.user_id, &claim.email, hash, now) {
        Ok(()) => {
            proof {
                assert(argon_verifies(password@, hg));
            }
            Ok(())
        },
        Err(e) => Err(e),
    }
}

} // verus!
