//! Laws that hold across the flows, the token layer and the registry,
//! stated over the same spec functions their contracts use.
use vstd::prelude::*;

use crate::claims::{auth_payload, lemma_auth_payload_inj, AuthClaim};
use crate::pipeline::{claim_valid, spec_session_ok};
use crate::registry::{has_session, keeps, SessionModel};
use crate::signer::{ed_pub_of, key_pair, SigningKey, VerifyingKey};
use crate::token::{lemma_token_payload_unique, token_accepted};

verus! {

/// A token proves at most one claim: the frame pins the payload bytes, and
/// the canonical payload notation pins the claim.
pub proof fn lemma_claim_unique(
    token: Seq<char>,
    pub_pem: Seq<u8>,
    now: u64,
    c1: AuthClaim,
    c2: AuthClaim,
)
    requires
        claim_valid(token, pub_pem, now, c1),
        claim_valid(token, pub_pem, now, c2),
    ensures
        c1 == c2,
{
    lemma_token_payload_unique(
        token,
        auth_payload(c1.user_id, c1.uuid, c1.exp),
        auth_payload(c2.user_id, c2.uuid, c2.exp),
        pub_pem,
    );
    lemma_auth_payload_inj(c1.user_id, c1.uuid, c1.exp, c2.user_id, c2.uuid, c2.exp);
}

/// A token minted at login, replayed on a protected route, resolves to the
/// claim — and so the user — that logged in: under a matched key pair the
/// minted token is valid for its own claim and for no other, and with its
/// session registered the pipeline's success condition singles it out.
pub proof fn lemma_login_token_resolves(
    sk: &SigningKey,
    vk: &VerifyingKey,
    t: Seq<char>,
    c: AuthClaim,
    now: u64,
    reg: Seq<SessionModel>,
)
    requires
        key_pair(sk, vk),
        token_accepted(t, auth_payload(c.user_id, c.uuid, c.exp), ed_pub_of(sk.pem@)),
        now < c.exp,
        has_session(reg, c.uuid),
    ensures
        claim_valid(t, vk.pem@, now, c),
        spec_session_ok(t, vk.pem@, now, reg),
        forall|c2: AuthClaim| #[trigger] claim_valid(t, vk.pem@, now, c2) ==> c2 == c,
{
    assert(claim_valid(t, vk.pem@, now, c));
    assert forall|c2: AuthClaim| #[trigger] claim_valid(t, vk.pem@, now, c2) implies c2 == c by {
        lemma_claim_unique(t, vk.pem@, now, c, c2);
    }
}

/// Once a session's record is gone, its token is dead: the signature still
/// verifies and the expiry has not passed, yet no claim the token proves
/// has a live session, so the pipeline must answer `Unauthorized`.
/// Registry-backed revocation overrides claim-level validity.
pub proof fn lemma_revoked_token_rejected(
    vk: &VerifyingKey,
    t: Seq<char>,
    c: AuthClaim,
    now: u64,
    reg: Seq<SessionModel>,
)
    requires
        claim_valid(t, vk.pem@, now, c),
        !has_session(reg, c.uuid),
    ensures
        !spec_session_ok(t, vk.pem@, now, reg),
{
    if spec_session_ok(t, vk.pem@, now, reg) {
        let c2 = choose|c2: AuthClaim|
            #[trigger] claim_valid(t, vk.pem@, now, c2) && has_session(reg, c2.uuid);
        lemma_claim_unique(t, vk.pem@, now, c, c2);
    }
}

/// Bulk revocation keeps exactly the right records: every session of other
/// users and the caller's current one survive, and every surviving record
/// of the caller is the current one.
pub proof fn lemma_delete_all_except_scope(s: Seq<SessionModel>, owner: u64, keep: u128)
    ensures
        forall|i: int|
            0 <= i < s.len() && ((#[trigger] s[i]).user_id != owner || s[i].session_id == keep)
                ==> s.filter(keeps(owner, keep)).contains(s[i]),
        forall|i: int|
            0 <= i < s.filter(keeps(owner, keep)).len() ==> ((#[trigger] s.filter(
                keeps(owner, keep),
            )[i]).user_id != owner || s.filter(keeps(owner, keep))[i].session_id == keep),
{
    assert forall|i: int|
        0 <= i < s.len() && ((#[trigger] s[i]).user_id != owner || s[i].session_id
            == keep) implies s.filter(keeps(owner, keep)).contains(s[i]) by {
        assert(keeps(owner, keep)(s[i]));
        s.lemma_filter_contains(keeps(owner, keep), i);
    }
    assert forall|i: int|
        0 <= i < s.filter(keeps(owner, keep)).len() implies ((#[trigger] s.filter(
        keeps(owner, keep),
    )[i]).user_id != owner || s.filter(keeps(owner, keep))[i].session_id == keep) by {
        s.lemma_filter_pred(keeps(owner, keep), i);
        assert(keeps(owner, keep)(s.filter(keeps(owner, keep))[i]));
    }
}

} // verus!
