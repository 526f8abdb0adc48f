//! The per-request authentication pipeline: extract a bearer token, verify
//! its signature and expiry, confirm the session is still registered, touch
//! its last-activity stamp, and — for state-mutating methods — enforce the
//! CSRF double-submit check.
//!
//! Signature validity and registry presence are two independent predicates,
//! both checked on every request: a cryptographically valid claim whose
//! record is gone is rejected, which is what makes revocation work.
use vstd::prelude::*;

use crate::claims::{auth_payload, parse_auth_payload, AuthClaim};
use crate::csrf::{csrf_matches, csrf_pair_ok};
use crate::error::Error;
use crate::registry::{has_session, touched, SessionRegistry};
use crate::signer::VerifyingKey;
use crate::token::{check_token, lemma_token_payload_unique, token_accepted};
use vstd::string::StrSliceExecFns;

verus! {

/// The request method; `Get` is the one safe read method.
#[derive(Clone, Copy, Debug, PartialEq, Eq, Structural)]
pub enum Method {
    Get,
    Post,
    Put,
    Delete,
}

/// What the pipeline reads from an incoming request.
pub struct AuthRequest {
    pub method: Method,
    pub bearer_header: Option<String>,
    pub auth_cookie: Option<String>,
    pub csrf_header: Option<String>,
    pub csrf_cookie: Option<String>,
}

/// The bearer token of a request: the `Authorization` header when it
/// carries the `Bearer ` scheme, else the cookie of the same name.
pub open spec fn spec_extracted(req: &AuthRequest) -> Option<Seq<char>> {
    match req.bearer_header {
        Some(h) => if h@.len() >= 7 && h@.subrange(0, 7) == "Bearer "@ {
            Some(h@.skip(7))
        } else {
            spec_cookie_token(req)
        },
        None => spec_cookie_token(req),
    }
}

pub open spec fn spec_cookie_token(req: &AuthRequest) -> Option<Seq<char>> {
    match req.auth_cookie {
        Some(c) => Some(c@),
        None => None,
    }
}

/// A claim this token proves at time `now` under the given public key:
/// the signature verifies and the embedded expiry is in the future.
pub open spec fn claim_valid(token: Seq<char>, pub_pem: Seq<u8>, now: u64, c: AuthClaim) -> bool {
    token_accepted(token, auth_payload(c.user_id, c.uuid, c.exp), pub_pem) && now < c.exp
}

/// Whether the token proves a claim whose session is still registered.
pub open spec fn spec_session_ok(
    token: Seq<char>,
    pub_pem: Seq<u8>,
    now: u64,
    reg: Seq<crate::registry::SessionModel>,
) -> bool {
    exists|c: AuthClaim| #[trigger] claim_valid(token, pub_pem, now, c) && has_session(reg, c.uuid)
}

/// CSRF as the pipeline sees it: required only on mutating methods.
pub open spec fn spec_csrf_ok(req: &AuthRequest) -> bool {
    csrf_pair_ok(req.csrf_header, req.csrf_cookie)
}

/// Strips the `Bearer ` scheme from an `Authorization` header value.
fn bearer_of<'a>(h: &'a String) -> (r: Option<&'a str>)
    ensures
        (h@.len() >= 7 && h@.subrange(0, 7) == "Bearer "@) ==> (r matches Some(t) && t@ == h@.skip(
            7,
        )),
        !(h@.len() >= 7 && h@.subrange(0, 7) == "Bearer "@) ==> r is None,
{
    proof {
        reveal_strlit("Bearer ");
    }
    let s = h.as_str();
    let n = s.unicode_len();
    if n < 7 {
        return None;
    }
    if s.get_char(0) == 'B' && s.get_char(1) == 'e' && s.get_char(2) == 'a' && s.get_char(3) == 'r'
        && s.get_char(4) == 'e' && s.get_char(5) == 'r' && s.get_char(6) == ' ' {
        proof {
            assert(h@.subrange(0, 7) =~= "Bearer "@);
        }
        Some(s.substring_char(7, n))
    } else {
        proof {
            if h@.subrange(0, 7) == "Bearer "@ {
                assert(h@[0] == 'B' && h@[1] == 'e' && h@[2] == 'a' && h@[3] == 'r' && h@[4] == 'e'
                    && h@[5] == 'r' && h@[6] == ' ') by {
                    assert(h@.subrange(0, 7)[0] == h@[0]);
                    assert(h@.subrange(0, 7)[1] == h@[1]);
                    assert(h@.subrange(0, 7)[2] == h@[2]);
                    assert(h@.subrange(0, 7)[3] == h@[3]);
                    assert(h@.subrange(0, 7)[4] == h@[4]);
                    assert(h@.subrange(0, 7)[5] == h@[5]);
                    assert(h@.subrange(0, 7)[6] == h@[6]);
                }
            }
        }
        None
    }
}

/// Runs the whole pipeline for one request.
///
/// On success the verified identity claim is handed back for downstream
/// handlers, and the session's last-activity stamp has been refreshed. A
/// missing, malformed, expired or revoked session is `Unauthorized`; a
/// mutating request that fails the double-submit check is `Forbidden` (its
/// session is still touched first, as the check comes last).
pub fn authenticate(
    req: &AuthRequest,
    key: &VerifyingKey,
    reg: &mut SessionRegistry,
    now: u64,
) -> (r: Result<AuthClaim, Error>)
    requires
        old(reg).inv(),
    ensures
        final(reg).inv(),
        (match r {
            Ok(c) => {
                &&& spec_extracted(req) matches Some(tok) && claim_valid(tok, key.pem@, now, c)
                    && has_session(old(reg)@, c.uuid)
                &&& req.method == Method::Get || spec_csrf_ok(req)
                &&& final(reg)@ == touched(old(reg)@, c.uuid, now)
            },
            Err(e) => {
                &&& (e matches Error::Unauthorized || e matches Error::Forbidden)
                &&& e matches Error::Unauthorized ==> (match spec_extracted(req) {
                    None => true,
                    Some(tok) => !spec_session_ok(tok, key.pem@, now, old(reg)@),
                }) && final(reg)@ == old(reg)@
                &&& e matches Error::Forbidden ==> req.method != Method::Get && !spec_csrf_ok(req)
                    && (spec_extracted(req) matches Some(tok) && spec_session_ok(
                    tok,
                    key.pem@,
                    now,
                    old(reg)@,
                )) && (exists|c: AuthClaim|
                    #[trigger] claim_valid(spec_extracted(req)->Some_0, key.pem@, now, c)
                        && has_session(old(reg)@, c.uuid) && final(reg)@ == touched(
                        old(reg)@,
                        c.uuid,
                        now,
                    ))
            },
        }),
        (spec_extracted(req) matches Some(tok) && spec_session_ok(tok, key.pem@, now, old(reg)@)
            && (req.method == Method::Get || spec_csrf_ok(req))) ==> r is Ok,
{
    let token: &str = match &req.bearer_header {
        Some(h) => match bearer_of(h) {
            Some(t) => t,
            None => match &req.auth_cookie {
                Some(c) => c.as_str(),
                None => {
                    return Err(Error::Unauthorized);
                },
            },
        },
        None => match &req.auth_cookie {
            Some(c) => c.as_str(),
            None => {
                return Err(Error::Unauthorized);
            },
        },
    };
    let ghost tok = spec_extracted(req)->Some_0;
    proof {
        assert(spec_extracted(req) is Some && token@ == tok);
    }
    let payload = match check_token(token, key) {
        Some(p) => p,
        None => {
            proof {
                assert forall|c: AuthClaim| !(#[trigger] claim_valid(tok, key.pem@, now, c)) by {}
            }
            return Err(Error::Unauthorized);
        },
    };
    let claim = match parse_auth_payload(&payload) {
        Some(c) => c,
        None => {
            proof {
                assert forall|c: AuthClaim|
                    !(#[trigger] claim_valid(tok, key.pem@, now, c)) by {
                    if claim_valid(tok, key.pem@, now, c) {
                        lemma_token_payload_unique(
                            tok,
                            payload@,
                            auth_payload(c.user_id, c.uuid, c.exp),
                            key.pem@,
                        );
                    }
                }
            }
            return Err(Error::Unauthorized);
        },
    };
    if now >= claim.exp {
        proof {
            assert forall|c: AuthClaim|
                !(#[trigger] claim_valid(tok, key.pem@, now, c)) by {
                if claim_valid(tok, key.pem@, now, c) {
                    lemma_token_payload_unique(
                        tok,
                        payload@,
                        auth_payload(c.user_id, c.uuid, c.exp),
                        key.pem@,
                    );
                }
            }
        }
        return Err(Error::Unauthorized);
    }
    // Every claim this token can prove is this one.
    proof {
        assert forall|c: AuthClaim|
            #[trigger] claim_valid(tok, key.pem@, now, c) implies c == claim by {
            lemma_token_payload_unique(
                tok,
                payload@,
                auth_payload(c.user_id, c.uuid, c.exp),
                key.pem@,
            );
        }
    }
    match reg.find_active(claim.uuid) {
        Some(_) => {},
        None => {
            return Err(Error::Unauthorized);
        },
    }
    reg.touch(claim.uuid, now);
    if !matches!(req.method, Method::Get) {
        if !csrf_matches(&req.csrf_header, &req.csrf_cookie) {
            proof {
                assert(claim_valid(spec_extracted(req)->Some_0, key.pem@, now, claim));
                assert(has_session(old(reg)@, claim.uuid));
                assert(reg@ == touched(old(reg)@, claim.uuid, now));
            }
            return Err(Error::Forbidden);
        }
    }
    Ok(claim)
}

} // verus!
