//! The claim payloads carried inside signed tokens, and their canonical JSON
//! notation: a bearer-session claim `{"user_id":N,"uuid":"…","exp":N}` and a
//! reset/signup claim `{"user_id":N,"email":"…","exp":N}`.
//!
//! Each payload has one canonical byte form; the parsers accept exactly that
//! form, so payload bytes and claim values determine one another.
use vstd::prelude::*;

use crate::decimal::{dec_digits, enc_u64, is_digit, parse_u64_at};
use crate::jsonstr::{esc, escape, parse_string_at};
use crate::uuidfmt::{enc_uuid, parse_uuid_at, uuid_str};
use vstd::string::StrSliceExecFns;
use vstd::utf8::{decode_utf8, encode_utf8, valid_utf8};

verus! {

/// The bearer-session claim: who the session belongs to, its 128-bit
/// registry identifier, and the embedded expiry (seconds since the epoch).
#[derive(Clone, Copy, Debug, PartialEq, Eq, Structural)]
pub struct AuthClaim {
    pub user_id: u64,
    pub uuid: u128,
    pub exp: u64,
}

/// The password-reset / account-signup claim: stateless, bound to the user's
/// id and the email it was issued for, with a short expiry.
#[derive(Clone, Debug)]
pub struct ResetClaim {
    pub user_id: u64,
    pub email: String,
    pub exp: u64,
}

/// `{"user_id":`
pub open spec fn lit_user_id() -> Seq<u8> {
    seq![123u8, 34u8, 117u8, 115u8, 101u8, 114u8, 95u8, 105u8, 100u8, 34u8, 58u8]
}

/// `,"uuid":"`
pub open spec fn lit_uuid() -> Seq<u8> {
    seq![44u8, 34u8, 117u8, 117u8, 105u8, 100u8, 34u8, 58u8, 34u8]
}

/// `,"email":"`
pub open spec fn lit_email() -> Seq<u8> {
    seq![44u8, 34u8, 101u8, 109u8, 97u8, 105u8, 108u8, 34u8, 58u8, 34u8]
}

/// `","exp":`
pub open spec fn lit_exp() -> Seq<u8> {
    seq![34u8, 44u8, 34u8, 101u8, 120u8, 112u8, 34u8, 58u8]
}

/// The canonical payload of a bearer-session claim.
pub open spec fn auth_payload(user_id: u64, session: u128, exp: u64) -> Seq<u8> {
    lit_user_id() + dec_digits(user_id as nat) + lit_uuid() + uuid_str(session) + lit_exp()
        + dec_digits(exp as nat) + seq![125u8]
}

/// The canonical payload of a reset/signup claim, over the email's chars.
pub open spec fn reset_payload(user_id: u64, email: Seq<char>, exp: u64) -> Seq<u8> {
    lit_user_id() + dec_digits(user_id as nat) + lit_email() + esc(encode_utf8(email)) + lit_exp()
        + dec_digits(exp as nat) + seq![125u8]
}

/// Builds `{"user_id":`.
fn lit_user_id_vec() -> (r: Vec<u8>)
    ensures
        r@ == lit_user_id(),
{
    let mut v: Vec<u8> = Vec::new();
    v.push(123);
    v.push(34);
    v.push(117);
    v.push(115);
    v.push(101);
    v.push(114);
    v.push(95);
    v.push(105);
    v.push(100);
    v.push(34);
    v.push(58);
    proof {
        assert(v@ =~= lit_user_id());
    }
    v
}

/// Builds `,"uuid":"`.
fn lit_uuid_vec() -> (r: Vec<u8>)
    ensures
        r@ == lit_uuid(),
{
    let mut v: Vec<u8> = Vec::new();
    v.push(44);
    v.push(34);
    v.push(117);
    v.push(117);
    v.push(105);
    v.push(100);
    v.push(34);
    v.push(58);
    v.push(34);
    proof {
        assert(v@ =~= lit_uuid());
    }
    v
}

/// Builds `,"email":"`.
fn lit_email_vec() -> (r: Vec<u8>)
    ensures
        r@ == lit_email(),
{
    let mut v: Vec<u8> = Vec::new();
    v.push(44);
    v.push(34);
    v.push(101);
    v.push(109);
    v.push(97);
    v.push(105);
    v.push(108);
    v.push(34);
    v.push(58);
    v.push(34);
    proof {
        assert(v@ =~= lit_email());
    }
    v
}

/// Builds `","exp":`.
fn lit_exp_vec() -> (r: Vec<u8>)
    ensures
        r@ == lit_exp(),
{
    let mut v: Vec<u8> = Vec::new();
    v.push(34);
    v.push(44);
    v.push(34);
    v.push(101);
    v.push(120);
    v.push(112);
    v.push(34);
    v.push(58);
    proof {
        assert(v@ =~= lit_exp());
    }
    v
}

/// True when `lit` occurs in `p` at `start`.
pub(crate) fn match_at(p: &Vec<u8>, start: usize, lit: &Vec<u8>) -> (r: bool)
    requires
        start <= p@.len(),
    ensures
        r == (start + lit@.len() <= p@.len() && p@.subrange(
            start as int,
            start as int + lit@.len() as int,
        ) == lit@),
{
    let n = p.len();
    if lit.len() > n - start {
        return false;
    }
    let mut i: usize = 0;
    while i < lit.len()
        invariant
            i <= lit@.len(),
            n == p@.len(),
            start + lit@.len() <= p@.len(),
            forall|j: int| 0 <= j < i ==> p@[start + j] == lit@[j],
        decreases lit@.len() - i,
    {
        if p[start + i] != lit[i] {
            proof {
                assert(p@.subrange(start as int, start as int + lit@.len() as int)[i as int]
                    == p@[start + i]);
            }
            return false;
        }
        i = i + 1;
    }
    proof {
        assert(p@.subrange(start as int, start as int + lit@.len() as int) =~= lit@);
    }
    true
}

/// Writes a bearer-session claim in its canonical payload form.
pub fn auth_payload_bytes(c: &AuthClaim) -> (r: Vec<u8>)
    ensures
        r@ == auth_payload(c.user_id, c.uuid, c.exp),
{
    let mut out = lit_user_id_vec();
    let mut part = enc_u64(c.user_id);
    out.append(&mut part);
    let mut part = lit_uuid_vec();
    out.append(&mut part);
    let mut part = enc_uuid(c.uuid);
    out.append(&mut part);
    let mut part = lit_exp_vec();
    out.append(&mut part);
    let mut part = enc_u64(c.exp);
    out.append(&mut part);
    out.push(125);
    proof {
        assert(out@ =~= auth_payload(c.user_id, c.uuid, c.exp));
    }
    out
}

/// Writes a reset/signup claim in its canonical payload form.
pub fn reset_payload_bytes(c: &ResetClaim) -> (r: Vec<u8>)
    ensures
        r@ == reset_payload(c.user_id, c.email@, c.exp),
{
    let mut out = lit_user_id_vec();
    let mut part = enc_u64(c.user_id);
    out.append(&mut part);
    let mut part = lit_email_vec();
    out.append(&mut part);
    let email_bytes = c.email.as_str().as_bytes_vec();
    let mut part = escape(&email_bytes);
    out.append(&mut part);
    let mut part = lit_exp_vec();
    out.append(&mut part);
    let mut part = enc_u64(c.exp);
    out.append(&mut part);
    out.push(125);
    proof {
        assert(email_bytes@ == encode_utf8(c.email@));
        assert(out@ =~= reset_payload(c.user_id, c.email@, c.exp));
    }
    out
}

/// Relies on `String::from_utf8`: succeeds exactly on valid UTF-8 and
/// decodes it to the scalar values the bytes encode.
#[verifier::external_body]
fn utf8_to_string(bytes: Vec<u8>) -> (r: Option<String>)
    ensures
        r is Some <==> valid_utf8(bytes@),
        r matches Some(s) ==> s@ == decode_utf8(bytes@),
{
    match String::from_utf8(bytes) {
        Ok(s) => Some(s),
        Err(_) => None,
    }
}

/// Reads a bearer-session claim; `None` unless the whole of `p` is the
/// canonical payload of one.
#[verifier::rlimit(100)]
pub fn parse_auth_payload(p: &Vec<u8>) -> (r: Option<AuthClaim>)
    ensures
        r matches Some(c) ==> p@ == auth_payload(c.user_id, c.uuid, c.exp),
        forall|uid: u64, sid: u128, exp: u64|
            p@ == #[trigger] auth_payload(uid, sid, exp) ==> r == Some(
                AuthClaim { user_id: uid, uuid: sid, exp },
            ),
{
    let ghost g = p@;
    let n = p.len();
    let l1 = lit_user_id_vec();
    let l2 = lit_uuid_vec();
    let l3 = lit_exp_vec();
    proof {
        assert forall|uid: u64, sid: u128, exp: u64|
            g == #[trigger] auth_payload(uid, sid, exp) implies {
            let d1 = dec_digits(uid as nat).len() as int;
            let d2 = dec_digits(exp as nat).len() as int;
            &&& g.len() == 11 + d1 + 9 + 36 + 8 + d2 + 1
            &&& g.subrange(0, 11) == lit_user_id()
            &&& g.subrange(11, 11 + d1) == dec_digits(uid as nat)
            &&& g.subrange(11 + d1, 11 + d1 + 9) == lit_uuid()
            &&& g.subrange(11 + d1 + 9, 11 + d1 + 9 + 36) == uuid_str(sid)
            &&& g.subrange(11 + d1 + 9 + 36, 11 + d1 + 9 + 36 + 8) == lit_exp()
            &&& g.subrange(11 + d1 + 9 + 36 + 8, 11 + d1 + 9 + 36 + 8 + d2) == dec_digits(
                exp as nat,
            )
            &&& g[g.len() - 1] == 125
        } by {
            let d1 = dec_digits(uid as nat).len() as int;
            let d2 = dec_digits(exp as nat).len() as int;
            assert(g.subrange(0, 11) =~= lit_user_id());
            assert(g.subrange(11, 11 + d1) =~= dec_digits(uid as nat));
            assert(g.subrange(11 + d1, 11 + d1 + 9) =~= lit_uuid());
            assert(g.subrange(11 + d1 + 9, 11 + d1 + 9 + 36) =~= uuid_str(sid));
            assert(g.subrange(11 + d1 + 9 + 36, 11 + d1 + 9 + 36 + 8) =~= lit_exp());
            assert(g.subrange(11 + d1 + 9 + 36 + 8, 11 + d1 + 9 + 36 + 8 + d2) =~= dec_digits(
                exp as nat,
            ));
        }
    }
    if !match_at(p, 0, &l1) {
        return None;
    }
    let (uid, pos1) = match parse_u64_at(p, 11) {
        Some(x) => x,
        None => {
            return None;
        },
    };
    if !match_at(p, pos1, &l2) {
        return None;
    }
    if n - pos1 < 45 {
        return None;
    }
    let sid = match parse_uuid_at(p, pos1 + 9) {
        Some(x) => x,
        None => {
            return None;
        },
    };
    let pos2 = pos1 + 9 + 36;
    if !match_at(p, pos2, &l3) {
        return None;
    }
    let (exp, pos3) = match parse_u64_at(p, pos2 + 8) {
        Some(x) => x,
        None => {
            return None;
        },
    };
    if pos3 == p.len() || p.len() - pos3 != 1 || p[pos3] != 125 {
        return None;
    }
    proof {
        assert(g =~= auth_payload(uid, sid, exp));
    }
    Some(AuthClaim { user_id: uid, uuid: sid, exp })
}

/// Reads a reset/signup claim; `None` unless the whole of `p` is the
/// canonical payload of one.
#[verifier::rlimit(100)]
pub fn parse_reset_payload(p: &Vec<u8>) -> (r: Option<ResetClaim>)
    ensures
        r matches Some(c) ==> p@ == reset_payload(c.user_id, c.email@, c.exp),
        forall|uid: u64, em: Seq<char>, exp: u64|
            p@ == #[trigger] reset_payload(uid, em, exp) ==> (r is Some && r->Some_0.user_id == uid
                && r->Some_0.email@ == em && r->Some_0.exp == exp),
{
    let ghost g = p@;
    let n = p.len();
    let l1 = lit_user_id_vec();
    let l2 = lit_email_vec();
    let l3 = lit_exp_vec();
    proof {
        broadcast use vstd::utf8::encode_utf8_valid_utf8;
        broadcast use vstd::utf8::encode_utf8_decode_utf8;

        assert forall|uid: u64, em: Seq<char>, exp: u64|
            g == #[trigger] reset_payload(uid, em, exp) implies {
            let d1 = dec_digits(uid as nat).len() as int;
            let es = esc(encode_utf8(em)).len() as int;
            let d2 = dec_digits(exp as nat).len() as int;
            &&& g.len() == 11 + d1 + 10 + es + 8 + d2 + 1
            &&& g.subrange(0, 11) == lit_user_id()
            &&& g.subrange(11, 11 + d1) == dec_digits(uid as nat)
            &&& g.subrange(11 + d1, 11 + d1 + 10) == lit_email()
            &&& g.subrange(11 + d1 + 10, 11 + d1 + 10 + es + 1) == esc(encode_utf8(em)) + seq![
                34u8,
            ]
            &&& g.subrange(11 + d1 + 10 + es + 1, 11 + d1 + 10 + es + 8) == lit_exp().skip(1)
            &&& g.subrange(11 + d1 + 10 + es + 8, 11 + d1 + 10 + es + 8 + d2) == dec_digits(
                exp as nat,
            )
            &&& g[g.len() - 1] == 125
        } by {
            let d1 = dec_digits(uid as nat).len() as int;
            let es = esc(encode_utf8(em)).len() as int;
            let d2 = dec_digits(exp as nat).len() as int;
            assert(g.subrange(0, 11) =~= lit_user_id());
            assert(g.subrange(11, 11 + d1) =~= dec_digits(uid as nat));
            assert(g.subrange(11 + d1, 11 + d1 + 10) =~= lit_email());
            assert(g.subrange(11 + d1 + 10, 11 + d1 + 10 + es + 1) =~= esc(encode_utf8(em)) + seq![
                34u8,
            ]);
            assert(g.subrange(11 + d1 + 10 + es + 1, 11 + d1 + 10 + es + 8) =~= lit_exp().skip(1));
            assert(g.subrange(11 + d1 + 10 + es + 8, 11 + d1 + 10 + es + 8 + d2) =~= dec_digits(
                exp as nat,
            ));
        }
    }
    if !match_at(p, 0, &l1) {
        return None;
    }
    let (uid, pos1) = match parse_u64_at(p, 11) {
        Some(x) => x,
        None => {
            return None;
        },
    };
    if !match_at(p, pos1, &l2) {
        return None;
    }
    let (email_bytes, pos2) = match parse_string_at(p, pos1 + 10) {
        Some(x) => x,
        None => {
            return None;
        },
    };
    // `parse_string_at` consumed the email's closing quote: the rest of the
    // `","exp":` literal follows.
    let mut l3rest = l3;
    let _ = l3rest.remove(0);
    proof {
        assert(l3rest@ =~= lit_exp().skip(1));
    }
    if !match_at(p, pos2, &l3rest) {
        return None;
    }
    let (exp, pos3) = match parse_u64_at(p, pos2 + 7) {
        Some(x) => x,
        None => {
            return None;
        },
    };
    if pos3 == p.len() || p.len() - pos3 != 1 || p[pos3] != 125 {
        return None;
    }
    let ghost ebg = email_bytes@;
    let email = match utf8_to_string(email_bytes) {
        Some(s) => s,
        None => {
            proof {
                broadcast use vstd::utf8::encode_utf8_valid_utf8;
                broadcast use vstd::utf8::encode_utf8_decode_utf8;

                assert forall|uid2: u64, em: Seq<char>, exp2: u64|
                    g == #[trigger] reset_payload(uid2, em, exp2) implies false by {
                    assert(ebg == encode_utf8(em));
                }
            }
            return None;
        },
    };
    proof {
        broadcast use vstd::utf8::encode_utf8_valid_utf8;
        broadcast use vstd::utf8::encode_utf8_decode_utf8;
        broadcast use vstd::utf8::decode_utf8_encode_utf8;

        assert(valid_utf8(ebg));
        assert(encode_utf8(email@) == ebg);
        let a1 = lit_user_id() + dec_digits(uid as nat);
        assert(g.subrange(0, pos1 as int) =~= a1);
        let a2 = a1 + lit_email();
        assert(g.subrange(0, pos1 as int + 10) =~= a2);
        let eb2 = esc(encode_utf8(email@));
        assert(eb2 == esc(ebg));
        assert(g.subrange(pos1 as int + 10, pos2 as int) == esc(ebg) + seq![34u8]);
        assert(g.subrange(pos1 as int + 10, pos2 as int).len() == eb2.len() + 1);
        assert forall|k: int|
            0 <= k < eb2.len() implies g.subrange(pos1 as int + 10, pos2 as int - 1)[k]
            == eb2[k] by {
            assert(g.subrange(pos1 as int + 10, pos2 as int)[k] == (esc(ebg) + seq![34u8])[k]);
            assert(g.subrange(pos1 as int + 10, pos2 as int)[k] == g[pos1 as int + 10 + k]);
            assert(g.subrange(pos1 as int + 10, pos2 as int - 1)[k] == g[pos1 as int + 10 + k]);
        }
        assert(g.subrange(pos1 as int + 10, pos2 as int - 1).len() == eb2.len());
        assert(g.subrange(pos1 as int + 10, pos2 as int - 1) =~= eb2);
        assert(g.subrange(pos1 as int + 10, pos2 as int)[pos2 - 1 - (pos1 + 10)] == (esc(ebg)
            + seq![34u8])[pos2 - 1 - (pos1 + 10)]);
        assert(g[pos2 as int - 1] == 34);
        let a3 = a2 + eb2;
        assert(g.subrange(0, pos2 as int - 1) =~= a3);
        let a4 = a3 + lit_exp();
        assert(g.subrange(pos2 as int, pos2 as int + 7) == lit_exp().skip(1));
        assert(a3.len() == pos2 - 1);
        assert forall|j: int|
            0 <= j < pos2 as int + 7 implies g.subrange(0, pos2 as int + 7)[j] == a4[j] by {
            assert(g.subrange(0, pos2 as int + 7)[j] == g[j]);
            if j < pos2 - 1 {
                assert(g.subrange(0, pos2 as int - 1)[j] == a3[j]);
                assert(g.subrange(0, pos2 as int - 1)[j] == g[j]);
                assert(a4[j] == a3[j]);
            } else if j == pos2 - 1 {
                assert(a4[j] == lit_exp()[0]);
            } else {
                assert(g.subrange(pos2 as int, pos2 as int + 7)[j - pos2] == g[j]);
                assert(lit_exp().skip(1)[j - pos2] == lit_exp()[j - pos2 + 1]);
                assert(a4[j] == lit_exp()[j - (pos2 - 1)]);
            }
        }
        assert(g.subrange(0, pos2 as int + 7).len() == a4.len());
        assert(g.subrange(0, pos2 as int + 7) =~= a4);
        let a5 = a4 + dec_digits(exp as nat);
        assert(g.subrange(pos2 as int + 7, pos3 as int) == dec_digits(exp as nat));
        assert(g.subrange(0, pos3 as int) =~= a5);
        assert(g =~= a5 + seq![125u8]);
        assert(g =~= reset_payload(uid, email@, exp));
        assert forall|uid2: u64, em: Seq<char>, exp2: u64|
            g == #[trigger] reset_payload(uid2, em, exp2) implies (uid2 == uid && em == email@
            && exp2 == exp) by {
            assert(ebg == encode_utf8(em));
            assert(decode_utf8(encode_utf8(em)) == em);
        }
    }
    Some(ResetClaim { user_id: uid, email, exp })
}


/// The canonical pieces of a bearer-session payload, by offset.
proof fn lemma_auth_payload_parts(user_id: u64, session: u128, exp: u64)
    ensures
        ({
            let p = auth_payload(user_id, session, exp);
            let d1 = dec_digits(user_id as nat).len() as int;
            let d2 = dec_digits(exp as nat).len() as int;
            &&& p.len() == 11 + d1 + 9 + 36 + 8 + d2 + 1
            &&& p.subrange(0, 11) == lit_user_id()
            &&& p.subrange(11, 11 + d1) == dec_digits(user_id as nat)
            &&& p.subrange(11 + d1, 11 + d1 + 9) == lit_uuid()
            &&& p.subrange(11 + d1 + 9, 11 + d1 + 9 + 36) == uuid_str(session)
            &&& p.subrange(11 + d1 + 9 + 36, 11 + d1 + 9 + 36 + 8) == lit_exp()
            &&& p.subrange(11 + d1 + 9 + 36 + 8, 11 + d1 + 9 + 36 + 8 + d2) == dec_digits(
                exp as nat,
            )
        }),
{
    let p = auth_payload(user_id, session, exp);
    let d1 = dec_digits(user_id as nat).len() as int;
    let d2 = dec_digits(exp as nat).len() as int;
    assert(p.subrange(0, 11) =~= lit_user_id());
    assert(p.subrange(11, 11 + d1) =~= dec_digits(user_id as nat));
    assert(p.subrange(11 + d1, 11 + d1 + 9) =~= lit_uuid());
    assert(p.subrange(11 + d1 + 9, 11 + d1 + 9 + 36) =~= uuid_str(session));
    assert(p.subrange(11 + d1 + 9 + 36, 11 + d1 + 9 + 36 + 8) =~= lit_exp());
    assert(p.subrange(11 + d1 + 9 + 36 + 8, 11 + d1 + 9 + 36 + 8 + d2) =~= dec_digits(exp as nat));
}

/// A payload names one claim: the digit runs end at the first non-digit,
/// the identifier notation is injective, and so are the decimals.
#[verifier::rlimit(100)]
pub proof fn lemma_auth_payload_inj(
    u1: u64,
    s1: u128,
    e1: u64,
    u2: u64,
    s2: u128,
    e2: u64,
)
    requires
        auth_payload(u1, s1, e1) == auth_payload(u2, s2, e2),
    ensures
        u1 == u2,
        s1 == s2,
        e1 == e2,
{
    let p = auth_payload(u1, s1, e1);
    lemma_auth_payload_parts(u1, s1, e1);
    lemma_auth_payload_parts(u2, s2, e2);
    crate::decimal::lemma_dec_digits_shape(u1 as nat);
    crate::decimal::lemma_dec_digits_shape(u2 as nat);
    crate::decimal::lemma_dec_digits_shape(e1 as nat);
    crate::decimal::lemma_dec_digits_shape(e2 as nat);
    let a1 = dec_digits(u1 as nat).len() as int;
    let a2 = dec_digits(u2 as nat).len() as int;
    if a1 < a2 {
        assert(p[11 + a1] == p.subrange(11 + a1, 11 + a1 + 9)[0]);
        assert(p[11 + a1] == lit_uuid()[0]);
        assert(p[11 + a1] == p.subrange(11, 11 + a2)[a1]);
        assert(p[11 + a1] == dec_digits(u2 as nat)[a1]);
        assert(is_digit(dec_digits(u2 as nat)[a1]));
        assert(false);
    }
    if a2 < a1 {
        assert(p[11 + a2] == p.subrange(11 + a2, 11 + a2 + 9)[0]);
        assert(p[11 + a2] == lit_uuid()[0]);
        assert(p[11 + a2] == p.subrange(11, 11 + a1)[a2]);
        assert(p[11 + a2] == dec_digits(u1 as nat)[a2]);
        assert(is_digit(dec_digits(u1 as nat)[a2]));
        assert(false);
    }
    assert(dec_digits(u1 as nat) == dec_digits(u2 as nat));
    crate::decimal::lemma_dec_val_of_digits(u1 as nat);
    crate::decimal::lemma_dec_val_of_digits(u2 as nat);
    assert(u1 == u2);
    assert(uuid_str(s1) == p.subrange(11 + a1 + 9, 11 + a1 + 9 + 36));
    assert(uuid_str(s2) == p.subrange(11 + a1 + 9, 11 + a1 + 9 + 36));
    crate::uuidfmt::lemma_uuid_str_inj(s1, s2);
    let b1 = dec_digits(e1 as nat).len() as int;
    let b2 = dec_digits(e2 as nat).len() as int;
    assert(11 + a1 + 9 + 36 + 8 + b1 + 1 == p.len());
    assert(11 + a1 + 9 + 36 + 8 + b2 + 1 == p.len());
    assert(b1 == b2);
    assert(dec_digits(e1 as nat) == dec_digits(e2 as nat));
    crate::decimal::lemma_dec_val_of_digits(e1 as nat);
    crate::decimal::lemma_dec_val_of_digits(e2 as nat);
    assert(e1 == e2);
}

} // verus!
