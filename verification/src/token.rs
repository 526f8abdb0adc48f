//! Compact token framing: `base64url(header) . base64url(payload) .
//! signature`, with the fixed header naming the Edwards-curve scheme.
//!
//! Framing and payload transport are verified; only the signature itself is
//! trusted (see `signer`). A token is *accepted* for a payload when it has
//! exactly this frame and its signature verifies over the signing input.
use vstd::prelude::*;

use crate::ascii::{
    all_ascii, ascii_chars_of, ascii_string_to_bytes, ascii_to_string, lemma_ascii_cast_roundtrip,
    lemma_ascii_chars_is_ascii,
};
use crate::b64;
use crate::b64::{b64_decode, b64_encode, lemma_decode_encode, lemma_encode_ascii, lemma_encode_decode};
use crate::claims::match_at;
use crate::signer::{ed_key_ok, ed_pub_of, ed_sig, ed_sign, ed_verifies, ed_verify, SigningKey, VerifyingKey};
use vstd::string::{StrSliceExecFns, StringExecFns};
use vstd::utf8::is_ascii_chars;

verus! {

/// The token header `{"typ":"JWT","alg":"EdDSA"}`.
pub open spec fn header_bytes() -> Seq<u8> {
    seq![
        123u8,
        34,
        116,
        121,
        112,
        34,
        58,
        34,
        74,
        87,
        84,
        34,
        44,
        34,
        97,
        108,
        103,
        34,
        58,
        34,
        69,
        100,
        68,
        83,
        65,
        34,
        125,
    ]
}

/// Builds the token header.
fn header_vec() -> (r: Vec<u8>)
    ensures
        r@ == header_bytes(),
{
    let mut v: Vec<u8> = Vec::new();
    v.push(123);
    v.push(34);
    v.push(116);
    v.push(121);
    v.push(112);
    v.push(34);
    v.push(58);
    v.push(34);
    v.push(74);
    v.push(87);
    v.push(84);
    v.push(34);
    v.push(44);
    v.push(34);
    v.push(97);
    v.push(108);
    v.push(103);
    v.push(34);
    v.push(58);
    v.push(34);
    v.push(69);
    v.push(100);
    v.push(68);
    v.push(83);
    v.push(65);
    v.push(34);
    v.push(125);
    proof {
        assert(v@ =~= header_bytes());
    }
    v
}

/// The signing input for a payload: encoded header, dot, encoded payload.
pub open spec fn msg_of(payload: Seq<u8>) -> Seq<u8> {
    b64_encode(header_bytes()) + seq![46u8] + b64_encode(payload)
}

/// The chars of a token framing `payload` with signature part `sig`.
pub open spec fn framed(payload: Seq<u8>, sig: Seq<char>) -> Seq<char> {
    ascii_chars_of(msg_of(payload)) + seq!['.'] + sig
}

/// The token that signing `payload` with the key in `prv_pem` yields.
pub open spec fn signed_token(payload: Seq<u8>, prv_pem: Seq<u8>) -> Seq<char> {
    framed(payload, ed_sig(msg_of(payload), prv_pem))
}

/// Whether `token` carries `payload` under a signature that the key in
/// `pub_pem` accepts.
pub open spec fn token_accepted(token: Seq<char>, payload: Seq<u8>, pub_pem: Seq<u8>) -> bool {
    exists|sig: Seq<char>|
        is_ascii_chars(sig) && token == framed(payload, sig) && ed_verifies(
            sig,
            msg_of(payload),
            pub_pem,
        )
}

/// Shape of the signing input: ASCII, the encoded header up front, and its
/// one dot right after the header.
proof fn lemma_msg_shape(p: Seq<u8>)
    ensures
        all_ascii(msg_of(p)),
        msg_of(p).len() == b64_encode(header_bytes()).len() + 1 + b64_encode(p).len(),
        msg_of(p).subrange(0, b64_encode(header_bytes()).len() as int) == b64_encode(
            header_bytes(),
        ),
        msg_of(p)[b64_encode(header_bytes()).len() as int] == 46,
        forall|i: int|
            0 <= i < msg_of(p).len() && i != b64_encode(header_bytes()).len() ==> #[trigger] msg_of(
                p,
            )[i] != 46,
        msg_of(p).subrange(
            b64_encode(header_bytes()).len() + 1 as int,
            msg_of(p).len() as int,
        ) == b64_encode(p),
{
    lemma_encode_ascii(header_bytes());
    lemma_encode_ascii(p);
    let h = b64_encode(header_bytes());
    let q = b64_encode(p);
    let m = msg_of(p);
    assert(m.subrange(0, h.len() as int) =~= h);
    assert(m.subrange(h.len() + 1 as int, m.len() as int) =~= q);
    assert forall|i: int| 0 <= i < m.len() && i != h.len() implies #[trigger] m[i] != 46 by {
        if i < h.len() {
            assert(m[i] == h[i]);
        } else {
            assert(m[i] == q[i - (h.len() + 1)]);
        }
    }
    assert forall|i: int| 0 <= i < m.len() implies #[trigger] m[i] < 128 by {
        if i < h.len() {
            assert(m[i] == h[i]);
        } else if i == h.len() {
        } else {
            assert(m[i] == q[i - (h.len() + 1)]);
        }
    }
}

/// Byte-level shape of a framed token.
proof fn lemma_framed_bytes(tc: Seq<char>, tb: Seq<u8>, p: Seq<u8>, sig: Seq<char>)
    requires
        tc == framed(p, sig),
        tb == tc.map(|_i: int, c: char| c as u8),
    ensures
        tc.len() == msg_of(p).len() + 1 + sig.len(),
        tb.len() == tc.len(),
        tb.subrange(0, msg_of(p).len() as int) == msg_of(p),
        tb[msg_of(p).len() as int] == 46,
        tc.skip(msg_of(p).len() + 1 as int) == sig,
{
    lemma_msg_shape(p);
    let m = msg_of(p);
    assert forall|i: int| 0 <= i < m.len() implies tb[i] == m[i] by {
        assert(tc[i] == ascii_chars_of(m)[i]);
        assert(tc[i] == m[i] as char);
        lemma_ascii_cast_roundtrip(m[i]);
    }
    assert(tb.subrange(0, m.len() as int) =~= m);
    assert(tc[m.len() as int] == '.');
    assert(tb[m.len() as int] == ('.' as u8));
    assert(tc.skip(m.len() + 1 as int) =~= sig);
}

/// One token carries one payload: the header is fixed, the first dot after
/// it is pinned, and the strict encoding between the dots determines the
/// payload bytes.
pub proof fn lemma_token_payload_unique(t: Seq<char>, p1: Seq<u8>, p2: Seq<u8>, pub_pem: Seq<u8>)
    requires
        token_accepted(t, p1, pub_pem),
        token_accepted(t, p2, pub_pem),
    ensures
        p1 == p2,
{
    let sig1 = choose|sig: Seq<char>|
        is_ascii_chars(sig) && t == framed(p1, sig) && ed_verifies(sig, msg_of(p1), pub_pem);
    let sig2 = choose|sig: Seq<char>|
        is_ascii_chars(sig) && t == framed(p2, sig) && ed_verifies(sig, msg_of(p2), pub_pem);
    let tb = t.map(|_i: int, c: char| c as u8);
    lemma_framed_bytes(t, tb, p1, sig1);
    lemma_framed_bytes(t, tb, p2, sig2);
    lemma_msg_shape(p1);
    lemma_msg_shape(p2);
    let m1 = msg_of(p1);
    let m2 = msg_of(p2);
    let hl = b64_encode(header_bytes()).len() as int;
    if m1.len() < m2.len() {
        assert(tb[m1.len() as int] == 46);
        assert(m2[m1.len() as int] == tb[m1.len() as int]);
        assert(m1.len() != hl);
        assert(false);
    }
    if m2.len() < m1.len() {
        assert(tb[m2.len() as int] == 46);
        assert(m1[m2.len() as int] == tb[m2.len() as int]);
        assert(m2.len() != hl);
        assert(false);
    }
    assert(m1 == tb.subrange(0, m1.len() as int));
    assert(m1 == m2);
    assert(b64_encode(p1) =~= m1.subrange(hl + 1, m1.len() as int));
    assert(b64_encode(p2) =~= m2.subrange(hl + 1, m2.len() as int));
    lemma_decode_encode(p1);
    lemma_decode_encode(p2);
    assert(Some(p1) == b64_decode(b64_encode(p1)));
    assert(p1 == p2);
}

/// Signs a payload into a compact token. This fails exactly when the
/// signing key's bytes cannot be read as an Ed25519 private key.
pub fn sign_payload(payload: &Vec<u8>, key: &SigningKey) -> (r: Option<String>)
    ensures
        r is Some <==> ed_key_ok(key.pem@),
        r matches Some(t) ==> t@ == signed_token(payload@, key.pem@) && token_accepted(
            t@,
            payload@,
            ed_pub_of(key.pem@),
        ),
{
    let hb = header_vec();
    let mut msg = b64::encode(&hb);
    msg.push(46);
    let mut p64 = b64::encode(payload);
    msg.append(&mut p64);
    proof {
        assert(msg@ =~= msg_of(payload@));
    }
    let sig = match ed_sign(&msg, key) {
        Some(s) => s,
        None => {
            return None;
        },
    };
    let ghost msgg = msg@;
    proof {
        lemma_msg_shape(payload@);
    }
    let mut tok = ascii_to_string(msg);
    tok.append(".");
    tok.append(sig.as_str());
    proof {
        reveal_strlit(".");
        assert("."@ =~= seq!['.']);
        assert(tok@ == ascii_chars_of(msgg) + seq!['.'] + sig@);
        assert(tok@ == signed_token(payload@, key.pem@));
        assert(is_ascii_chars(sig@) && tok@ == framed(payload@, sig@) && ed_verifies(
            sig@,
            msg_of(payload@),
            ed_pub_of(key.pem@),
        ));
    }
    Some(tok)
}

/// Checks a token's frame and signature and hands back the carried payload.
/// `Some` exactly when some payload is accepted for this token under the
/// verifying key.
#[verifier::rlimit(100)]
pub fn check_token(token: &str, key: &VerifyingKey) -> (r: Option<Vec<u8>>)
    ensures
        r matches Some(p) ==> token_accepted(token@, p@, key.pem@),
        r is None ==> forall|p: Seq<u8>| !(#[trigger] token_accepted(token@, p, key.pem@)),
{
    let ghost tc = token@;
    if !token.is_ascii() {
        proof {
            assert forall|p: Seq<u8>| !(#[trigger] token_accepted(tc, p, key.pem@)) by {
                if token_accepted(tc, p, key.pem@) {
                    let sig = choose|sig: Seq<char>|
                        is_ascii_chars(sig) && tc == framed(p, sig) && ed_verifies(
                            sig,
                            msg_of(p),
                            key.pem@,
                        );
                    lemma_msg_shape(p);
                    lemma_ascii_chars_is_ascii(msg_of(p));
                    assert forall|i: int| 0 <= i < tc.len() implies '\0' <= #[trigger] tc[i]
                        <= '\u{7f}' by {
                        let m = ascii_chars_of(msg_of(p));
                        if i < m.len() {
                            assert(tc[i] == m[i]);
                        } else if i == m.len() {
                            assert(tc[i] == '.');
                        } else {
                            assert(tc[i] == sig[i - (m.len() + 1)]);
                        }
                    }
                    assert(is_ascii_chars(tc));
                    assert(false);
                }
            }
        }
        return None;
    }
    let tb = ascii_string_to_bytes(token);
    let ghost tbg = tb@;
    let n = tb.len();
    let hb = header_vec();
    let h64 = b64::encode(&hb);
    let hl = h64.len();
    // Every accepted payload fixes the same byte-level frame.
    proof {
        assert forall|p: Seq<u8>|
            #[trigger] token_accepted(tc, p, key.pem@) implies {
            &&& tbg.len() >= msg_of(p).len() + 1
            &&& msg_of(p).len() >= hl + 1
            &&& tbg.subrange(0, msg_of(p).len() as int) == msg_of(p)
            &&& tbg.subrange(0, hl as int) == h64@
            &&& tbg[hl as int] == 46
            &&& tbg[msg_of(p).len() as int] == 46
            &&& (forall|i: int|
                hl < i < msg_of(p).len() ==> #[trigger] tbg[i] != 46)
            &&& tbg.subrange(hl + 1, msg_of(p).len() as int) == b64_encode(p)
            &&& tc.skip(msg_of(p).len() + 1 as int) == (choose|sig: Seq<char>|
                is_ascii_chars(sig) && tc == framed(p, sig) && ed_verifies(
                    sig,
                    msg_of(p),
                    key.pem@,
                ))
            &&& ed_verifies(tc.skip(msg_of(p).len() + 1 as int), msg_of(p), key.pem@)
        } by {
            let sig = choose|sig: Seq<char>|
                is_ascii_chars(sig) && tc == framed(p, sig) && ed_verifies(
                    sig,
                    msg_of(p),
                    key.pem@,
                );
            lemma_framed_bytes(tc, tbg, p, sig);
            lemma_msg_shape(p);
            let m = msg_of(p);
            assert(tbg.subrange(0, hl as int) =~= m.subrange(0, hl as int));
            assert forall|i: int| hl < i < m.len() implies #[trigger] tbg[i] != 46 by {
                assert(tbg[i] == m[i]);
            }
            assert(tbg.subrange(hl + 1, m.len() as int) =~= m.subrange(hl + 1, m.len() as int));
        }
    }
    if !match_at(&tb, 0, &h64) {
        return None;
    }
    if hl >= n || tb[hl] != 46 {
        return None;
    }
    let mut k: usize = hl + 1;
    while k < n && tb[k] != 46
        invariant
            hl + 1 <= k <= n,
            n == tbg.len(),
            tb@ == tbg,
            forall|i: int| hl < i < k ==> #[trigger] tbg[i] != 46,
        decreases n - k,
    {
        k = k + 1;
    }
    if k == n {
        proof {
            assert forall|p: Seq<u8>| !(#[trigger] token_accepted(tc, p, key.pem@)) by {
                if token_accepted(tc, p, key.pem@) {
                    assert(tbg[msg_of(p).len() as int] == 46);
                    assert(false);
                }
            }
        }
        return None;
    }
    // `k` is the dot before the signature: for any accepted payload the
    // bytes between the dots are its encoding, which has no dot.
    proof {
        assert forall|p: Seq<u8>|
            #[trigger] token_accepted(tc, p, key.pem@) implies k == msg_of(p).len() by {
            assert(tbg[msg_of(p).len() as int] == 46);
            assert(tbg[k as int] == 46);
        }
    }
    let mut p64: Vec<u8> = Vec::new();
    let mut i: usize = hl + 1;
    while i < k
        invariant
            hl + 1 <= i <= k <= n,
            n == tbg.len(),
            tb@ == tbg,
            p64@ == tbg.subrange(hl + 1, i as int),
        decreases k - i,
    {
        p64.push(tb[i]);
        proof {
            assert(p64@ =~= tbg.subrange(hl + 1, i as int + 1));
        }
        i = i + 1;
    }
    let payload = match b64::decode(&p64) {
        Some(v) => v,
        None => {
            proof {
                assert forall|p: Seq<u8>| !(#[trigger] token_accepted(tc, p, key.pem@)) by {
                    if token_accepted(tc, p, key.pem@) {
                        assert(p64@ == b64_encode(p));
                        lemma_decode_encode(p);
                        assert(false);
                    }
                }
            }
            return None;
        },
    };
    let mut msgv: Vec<u8> = Vec::new();
    let mut i: usize = 0;
    while i < k
        invariant
            i <= k <= n,
            n == tbg.len(),
            tb@ == tbg,
            msgv@ == tbg.subrange(0, i as int),
        decreases k - i,
    {
        msgv.push(tb[i]);
        proof {
            assert(msgv@ =~= tbg.subrange(0, i as int + 1));
        }
        i = i + 1;
    }
    let tlen = token.unicode_len();
    let sig_str = token.substring_ascii(k + 1, tlen);
    if !ed_verify(sig_str, &msgv, key) {
        proof {
            assert forall|p: Seq<u8>| !(#[trigger] token_accepted(tc, p, key.pem@)) by {
                if token_accepted(tc, p, key.pem@) {
                    assert(k == msg_of(p).len());
                    assert(msgv@ =~= msg_of(p));
                    assert(sig_str@ =~= tc.skip(msg_of(p).len() + 1 as int));
                    assert(ed_verifies(sig_str@, msgv@, key.pem@));
                    assert(false);
                }
            }
        }
        return None;
    }
    proof {
        // The frame that was just checked is exactly `framed(payload, sig)`.
        lemma_encode_decode(p64@, payload@);
        assert(p64@ == b64_encode(payload@));
        assert(msgv@ =~= msg_of(payload@));
        let m = msg_of(payload@);
        lemma_msg_shape(payload@);
        let sig = tc.skip(k + 1);
        assert forall|j: int| 0 <= j < tc.len() implies tc[j] == #[trigger] framed(
            payload@,
            sig,
        )[j] by {
            lemma_ascii_cast_roundtrip(tbg[j]);
            assert(tc[j] == ascii_chars_of(tbg)[j]);
            assert(tc[j] == tbg[j] as char);
            if j < k {
                assert(ascii_chars_of(m)[j] == m[j] as char);
                assert(m[j] == tbg[j]);
            } else if j == k {
                assert(tbg[j] == 46);
                assert(framed(payload@, sig)[j] == '.');
            } else {
                assert(framed(payload@, sig)[j] == sig[j - (k + 1)]);
            }
        }
        assert(tc.len() == framed(payload@, sig).len());
        assert(tc =~= framed(payload@, sig));
        assert(is_ascii_chars(tc));
        assert forall|j: int| 0 <= j < sig.len() implies '\0' <= #[trigger] sig[j]
            <= '\u{7f}' by {
            assert(sig[j] == tc[k + 1 + j]);
        }
        assert(is_ascii_chars(sig));
        assert(sig_str@ =~= sig);
        assert(ed_verifies(sig, msg_of(payload@), key.pem@));
        assert(token_accepted(tc, payload@, key.pem@));
    }
    Some(payload)
}

} // verus!
