//! URL-safe base64 without padding, the alphabet compact token parts are
//! written in.
//!
//! Encoding and decoding are verified against each other: decoding accepts
//! exactly the strings the encoder produces (canonical form: a final group of
//! one char is refused, and unused trailing bits must be zero), so a byte
//! sequence and its encoding determine one another.
use vstd::prelude::*;

use crate::ascii::all_ascii;

verus! {

/// The alphabet byte for a 6-bit value.
pub open spec fn b64_char(v: u8) -> u8
    recommends
        v < 64,
{
    if v < 26 {
        (v + 65) as u8  // 'A'..='Z'
    } else if v < 52 {
        (v + 71) as u8  // 'a'..='z'
    } else if v < 62 {
        (v - 4) as u8  // '0'..='9'
    } else if v == 62 {
        45u8  // '-'
    } else {
        95u8  // '_'
    }
}

/// The 6-bit value of an alphabet byte, `None` outside the alphabet.
pub open spec fn b64_val(c: u8) -> Option<u8> {
    if 65 <= c && c <= 90 {
        Some((c - 65) as u8)
    } else if 97 <= c && c <= 122 {
        Some((c - 71) as u8)
    } else if 48 <= c && c <= 57 {
        Some((c + 4) as u8)
    } else if c == 45 {
        Some(62u8)
    } else if c == 95 {
        Some(63u8)
    } else {
        None
    }
}

pub proof fn lemma_b64_char_val(v: u8)
    requires
        v < 64,
    ensures
        b64_val(b64_char(v)) == Some(v),
{
}

pub proof fn lemma_b64_val_char(c: u8, v: u8)
    requires
        b64_val(c) == Some(v),
    ensures
        v < 64,
        b64_char(v) == c,
{
}

/// Alphabet bytes are ASCII and are never a dot, quote or backslash, so an
/// encoded part can be embedded in tokens and JSON without escaping.
pub proof fn lemma_b64_alphabet(c: u8)
    requires
        b64_val(c) is Some,
    ensures
        c < 128,
        c != 46,
        c != 34,
        c != 92,
{
}

/// The four alphabet bytes encoding three bytes of input.
pub open spec fn enc3(b0: u8, b1: u8, b2: u8) -> Seq<u8> {
    seq![
        b64_char(b0 >> 2),
        b64_char(((b0 & 3) << 4) | (b1 >> 4)),
        b64_char(((b1 & 15) << 2) | (b2 >> 6)),
        b64_char(b2 & 63),
    ]
}

/// The three alphabet bytes encoding a final group of two bytes.
pub open spec fn enc2(b0: u8, b1: u8) -> Seq<u8> {
    seq![
        b64_char(b0 >> 2),
        b64_char(((b0 & 3) << 4) | (b1 >> 4)),
        b64_char((b1 & 15) << 2),
    ]
}

/// The two alphabet bytes encoding a final group of one byte.
pub open spec fn enc1(b0: u8) -> Seq<u8> {
    seq![b64_char(b0 >> 2), b64_char((b0 & 3) << 4)]
}

/// Base64url (no padding) of a byte sequence.
pub open spec fn b64_encode(b: Seq<u8>) -> Seq<u8>
    decreases b.len(),
{
    if b.len() == 0 {
        Seq::empty()
    } else if b.len() == 1 {
        enc1(b[0])
    } else if b.len() == 2 {
        enc2(b[0], b[1])
    } else {
        enc3(b[0], b[1], b[2]) + b64_encode(b.skip(3))
    }
}

/// The byte rebuilt from the first two 6-bit values of a group.
pub open spec fn dec0(v0: u8, v1: u8) -> u8 {
    (v0 << 2) | (v1 >> 4)
}

/// The byte rebuilt from the second and third values.
pub open spec fn dec1(v1: u8, v2: u8) -> u8 {
    ((v1 & 15) << 4) | (v2 >> 2)
}

/// The byte rebuilt from the third and fourth values.
pub open spec fn dec2(v2: u8, v3: u8) -> u8 {
    ((v2 & 3) << 6) | v3
}

/// Strict base64url decoding: every byte must be in the alphabet, a final
/// group of one byte is malformed, and the unused low bits of a final group
/// must be zero.
pub open spec fn b64_decode(s: Seq<u8>) -> Option<Seq<u8>>
    decreases s.len(),
{
    if s.len() == 0 {
        Some(Seq::empty())
    } else if s.len() == 1 {
        None
    } else if s.len() == 2 {
        match (b64_val(s[0]), b64_val(s[1])) {
            (Some(v0), Some(v1)) => if v1 & 15 == 0 {
                Some(seq![dec0(v0, v1)])
            } else {
                None
            },
            _ => None,
        }
    } else if s.len() == 3 {
        match (b64_val(s[0]), b64_val(s[1]), b64_val(s[2])) {
            (Some(v0), Some(v1), Some(v2)) => if v2 & 3 == 0 {
                Some(seq![dec0(v0, v1), dec1(v1, v2)])
            } else {
                None
            },
            _ => None,
        }
    } else {
        match (b64_val(s[0]), b64_val(s[1]), b64_val(s[2]), b64_val(s[3])) {
            (Some(v0), Some(v1), Some(v2), Some(v3)) => match b64_decode(s.skip(4)) {
                Some(rest) => Some(seq![dec0(v0, v1), dec1(v1, v2), dec2(v2, v3)] + rest),
                None => None,
            },
            _ => None,
        }
    }
}

/// Decoding inverts encoding.
pub proof fn lemma_decode_encode(b: Seq<u8>)
    ensures
        b64_decode(b64_encode(b)) == Some(b),
    decreases b.len(),
{
    if b.len() == 0 {
        assert(b64_decode(b64_encode(b)) =~= Some(b));
    } else if b.len() == 1 {
        let b0 = b[0];
        assert(b0 >> 2 < 64 && (b0 & 3) << 4 < 64 && ((b0 & 3) << 4) & 15 == 0 && ((b0 >> 2)
            << 2) | ((((b0 & 3) << 4)) >> 4) == b0) by (bit_vector);
        lemma_b64_char_val(b0 >> 2);
        lemma_b64_char_val((b0 & 3) << 4);
        assert(b =~= seq![b0]);
    } else if b.len() == 2 {
        let b0 = b[0];
        let b1 = b[1];
        let v0 = b0 >> 2;
        let v1 = ((b0 & 3) << 4) | (b1 >> 4);
        let v2 = (b1 & 15) << 2;
        assert(v0 < 64 && v1 < 64 && v2 < 64 && v2 & 3 == 0 && dec0(v0, v1) == b0 && dec1(v1, v2)
            == b1) by {
            assert(b0 >> 2 < 64 && ((b0 & 3) << 4) | (b1 >> 4) < 64 && (b1 & 15) << 2 < 64 && ((b1
                & 15) << 2) & 3 == 0 && ((b0 >> 2) << 2) | ((((b0 & 3) << 4) | (b1 >> 4)) >> 4)
                == b0 && (((((b0 & 3) << 4) | (b1 >> 4)) & 15) << 4) | (((b1 & 15) << 2) >> 2)
                == b1) by (bit_vector);
        }
        lemma_b64_char_val(v0);
        lemma_b64_char_val(v1);
        lemma_b64_char_val(v2);
        assert(b =~= seq![b0, b1]);
    } else {
        let b0 = b[0];
        let b1 = b[1];
        let b2 = b[2];
        let v0 = b0 >> 2;
        let v1 = ((b0 & 3) << 4) | (b1 >> 4);
        let v2 = ((b1 & 15) << 2) | (b2 >> 6);
        let v3 = b2 & 63;
        assert(v0 < 64 && v1 < 64 && v2 < 64 && v3 < 64 && dec0(v0, v1) == b0 && dec1(v1, v2) == b1
            && dec2(v2, v3) == b2) by {
            assert(b0 >> 2 < 64 && ((b0 & 3) << 4) | (b1 >> 4) < 64 && ((b1 & 15) << 2) | (b2 >> 6)
                < 64 && b2 & 63 < 64 && ((b0 >> 2) << 2) | ((((b0 & 3) << 4) | (b1 >> 4)) >> 4)
                == b0 && (((((b0 & 3) << 4) | (b1 >> 4)) & 15) << 4) | ((((b1 & 15) << 2) | (b2
                >> 6)) >> 2) == b1 && ((((((b1 & 15) << 2) | (b2 >> 6))) & 3) << 6) | (b2 & 63)
                == b2) by (bit_vector);
        }
        lemma_b64_char_val(v0);
        lemma_b64_char_val(v1);
        lemma_b64_char_val(v2);
        lemma_b64_char_val(v3);
        lemma_decode_encode(b.skip(3));
        let s = b64_encode(b);
        assert(s == enc3(b0, b1, b2) + b64_encode(b.skip(3)));
        assert(s.len() >= 4);
        assert(s[0] == b64_char(v0) && s[1] == b64_char(v1) && s[2] == b64_char(v2) && s[3]
            == b64_char(v3));
        assert(s.skip(4) =~= b64_encode(b.skip(3)));
        assert(b64_decode(s) == Some(seq![b0, b1, b2] + b.skip(3)));
        assert(seq![b0, b1, b2] + b.skip(3) =~= b);
    }
}

/// Decoding is strict: only the encoder's output decodes, so a successful
/// decode pins the input down.
pub proof fn lemma_encode_decode(s: Seq<u8>, b: Seq<u8>)
    requires
        b64_decode(s) == Some(b),
    ensures
        b64_encode(b) == s,
    decreases s.len(),
{
    if s.len() == 0 {
        assert(b64_encode(b) =~= s);
    } else if s.len() == 2 {
        let v0 = b64_val(s[0])->Some_0;
        let v1 = b64_val(s[1])->Some_0;
        lemma_b64_val_char(s[0], v0);
        lemma_b64_val_char(s[1], v1);
        let b0 = dec0(v0, v1);
        assert(b == seq![b0]);
        assert({
            let c0 = v0;
            let c1 = v1;
            (c0 < 64 && c1 < 64 && c1 & 15 == 0) ==> (((c0 << 2) | (c1 >> 4)) >> 2 == c0 && ((((c0
                << 2) | (c1 >> 4))) & 3) << 4 == c1)
        }) by (bit_vector);
        assert(b64_encode(b) =~= s);
    } else if s.len() == 3 {
        let v0 = b64_val(s[0])->Some_0;
        let v1 = b64_val(s[1])->Some_0;
        let v2 = b64_val(s[2])->Some_0;
        lemma_b64_val_char(s[0], v0);
        lemma_b64_val_char(s[1], v1);
        lemma_b64_val_char(s[2], v2);
        let b0 = dec0(v0, v1);
        let b1 = dec1(v1, v2);
        assert(b == seq![b0, b1]);
        assert({
            let c0 = v0;
            let c1 = v1;
            let c2 = v2;
            (c0 < 64 && c1 < 64 && c2 < 64 && c2 & 3 == 0) ==> (((c0 << 2) | (c1 >> 4)) >> 2 == c0
                && ((((c0 << 2) | (c1 >> 4)) & 3) << 4) | ((((c1 & 15) << 4) | (c2 >> 2)) >> 4)
                == c1 && ((((c1 & 15) << 4) | (c2 >> 2)) & 15) << 2 == c2)
        }) by (bit_vector);
        assert(b64_encode(b) =~= s);
    } else {
        let v0 = b64_val(s[0])->Some_0;
        let v1 = b64_val(s[1])->Some_0;
        let v2 = b64_val(s[2])->Some_0;
        let v3 = b64_val(s[3])->Some_0;
        lemma_b64_val_char(s[0], v0);
        lemma_b64_val_char(s[1], v1);
        lemma_b64_val_char(s[2], v2);
        lemma_b64_val_char(s[3], v3);
        let rest = b64_decode(s.skip(4))->Some_0;
        lemma_encode_decode(s.skip(4), rest);
        let b0 = dec0(v0, v1);
        let b1 = dec1(v1, v2);
        let b2 = dec2(v2, v3);
        assert(b == seq![b0, b1, b2] + rest);
        assert({
            let c0 = v0;
            let c1 = v1;
            let c2 = v2;
            let c3 = v3;
            (c0 < 64 && c1 < 64 && c2 < 64 && c3 < 64) ==> (((c0 << 2) | (c1 >> 4)) >> 2 == c0 && (
            (((c0 << 2) | (c1 >> 4)) & 3) << 4) | ((((c1 & 15) << 4) | (c2 >> 2)) >> 4) == c1 && ((
            (((c1 & 15) << 4) | (c2 >> 2)) & 15) << 2) | ((((c2 & 3) << 6) | c3) >> 6) == c2 && ((
            ((c2 & 3) << 6) | c3) & 63) == c3)
        }) by (bit_vector);
        assert(b.len() >= 3);
        assert(b[0] == b0 && b[1] == b1 && b[2] == b2);
        assert(b.skip(3) =~= rest);
        assert(b64_encode(b) == enc3(b0, b1, b2) + b64_encode(rest));
        assert(b64_encode(b) =~= s);
    }
}

/// Every byte of an encoding is an alphabet byte.
pub proof fn lemma_encode_alphabet(b: Seq<u8>)
    ensures
        forall|i: int|
            0 <= i < b64_encode(b).len() ==> b64_val(#[trigger] b64_encode(b)[i]) is Some,
    decreases b.len(),
{
    if b.len() == 0 {
    } else if b.len() == 1 {
        let b0 = b[0];
        assert(b0 >> 2 < 64 && (b0 & 3) << 4 < 64) by (bit_vector);
        lemma_b64_char_val(b0 >> 2);
        lemma_b64_char_val((b0 & 3) << 4);
    } else if b.len() == 2 {
        let b0 = b[0];
        let b1 = b[1];
        assert(b0 >> 2 < 64 && ((b0 & 3) << 4) | (b1 >> 4) < 64 && (b1 & 15) << 2
            < 64) by (bit_vector);
        lemma_b64_char_val(b0 >> 2);
        lemma_b64_char_val(((b0 & 3) << 4) | (b1 >> 4));
        lemma_b64_char_val((b1 & 15) << 2);
    } else {
        let b0 = b[0];
        let b1 = b[1];
        let b2 = b[2];
        assert(b0 >> 2 < 64 && ((b0 & 3) << 4) | (b1 >> 4) < 64 && ((b1 & 15) << 2) | (b2 >> 6)
            < 64 && b2 & 63 < 64) by (bit_vector);
        lemma_b64_char_val(b0 >> 2);
        lemma_b64_char_val(((b0 & 3) << 4) | (b1 >> 4));
        lemma_b64_char_val(((b1 & 15) << 2) | (b2 >> 6));
        lemma_b64_char_val(b2 & 63);
        lemma_encode_alphabet(b.skip(3));
        assert forall|i: int| 0 <= i < b64_encode(b).len() implies b64_val(
            #[trigger] b64_encode(b)[i],
        ) is Some by {
            if i >= 4 {
                assert(b64_encode(b)[i] == b64_encode(b.skip(3))[i - 4]);
            }
        }
    }
}

/// An encoding is ASCII and contains no dot, quote or backslash.
pub proof fn lemma_encode_ascii(b: Seq<u8>)
    ensures
        all_ascii(b64_encode(b)),
        forall|i: int|
            0 <= i < b64_encode(b).len() ==> #[trigger] b64_encode(b)[i] != 46 && b64_encode(b)[i]
                != 34 && b64_encode(b)[i] != 92,
{
    lemma_encode_alphabet(b);
    assert forall|i: int| 0 <= i < b64_encode(b).len() implies #[trigger] b64_encode(b)[i] < 128
        && b64_encode(b)[i] != 46 && b64_encode(b)[i] != 34 && b64_encode(b)[i] != 92 by {
        lemma_b64_alphabet(b64_encode(b)[i]);
    }
}

/// Exec mirror of `b64_char`.
fn char_of(v: u8) -> (r: u8)
    requires
        v < 64,
    ensures
        r == b64_char(v),
{
    if v < 26 {
        v + 65
    } else if v < 52 {
        v + 71
    } else if v < 62 {
        v - 4
    } else if v == 62 {
        45
    } else {
        95
    }
}

/// Exec mirror of `b64_val`.
fn val_of(c: u8) -> (r: Option<u8>)
    ensures
        r == b64_val(c),
{
    if 65 <= c && c <= 90 {
        Some(c - 65)
    } else if 97 <= c && c <= 122 {
        Some(c - 71)
    } else if 48 <= c && c <= 57 {
        Some(c + 4)
    } else if c == 45 {
        Some(62)
    } else if c == 95 {
        Some(63)
    } else {
        None
    }
}

/// Encodes a byte sequence as base64url without padding.
pub fn encode(b: &Vec<u8>) -> (r: Vec<u8>)
    ensures
        r@ == b64_encode(b@),
{
    let mut out: Vec<u8> = Vec::new();
    let mut i: usize = 0;
    proof {
        assert(b@.skip(0) =~= b@);
        assert(out@ + b64_encode(b@) =~= b64_encode(b@));
    }
    while b.len() - i >= 3
        invariant
            i <= b.len(),
            b64_encode(b@) == out@ + b64_encode(b@.skip(i as int)),
        decreases b.len() - i,
    {
        let b0 = b[i];
        let b1 = b[i + 1];
        let b2 = b[i + 2];
        proof {
            assert(b0 >> 2 < 64 && ((b0 & 3) << 4) | (b1 >> 4) < 64 && ((b1 & 15) << 2) | (b2 >> 6)
                < 64 && b2 & 63 < 64) by (bit_vector);
            let t = b@.skip(i as int);
            assert(t.len() >= 3);
            assert(t[0] == b0 && t[1] == b1 && t[2] == b2);
            assert(b64_encode(t) == enc3(b0, b1, b2) + b64_encode(t.skip(3)));
            assert(t.skip(3) =~= b@.skip(i as int + 3));
        }
        out.push(char_of(b0 >> 2));
        out.push(char_of(((b0 & 3) << 4) | (b1 >> 4)));
        out.push(char_of(((b1 & 15) << 2) | (b2 >> 6)));
        out.push(char_of(b2 & 63));
        proof {
            assert(out@ + b64_encode(b@.skip(i as int + 3)) =~= b64_encode(b@));
        }
        i = i + 3;
    }
    if b.len() - i == 1 {
        let b0 = b[i];
        proof {
            assert(b0 >> 2 < 64 && (b0 & 3) << 4 < 64) by (bit_vector);
            let t = b@.skip(i as int);
            assert(t.len() == 1);
            assert(t[0] == b0);
            assert(b64_encode(t) == enc1(b0));
        }
        out.push(char_of(b0 >> 2));
        out.push(char_of((b0 & 3) << 4));
        proof {
            assert(out@ =~= b64_encode(b@));
        }
    } else if b.len() - i == 2 {
        let b0 = b[i];
        let b1 = b[i + 1];
        proof {
            assert(b0 >> 2 < 64 && ((b0 & 3) << 4) | (b1 >> 4) < 64 && (b1 & 15) << 2
                < 64) by (bit_vector);
            let t = b@.skip(i as int);
            assert(t.len() == 2);
            assert(t[0] == b0 && t[1] == b1);
            assert(b64_encode(t) == enc2(b0, b1));
        }
        out.push(char_of(b0 >> 2));
        out.push(char_of(((b0 & 3) << 4) | (b1 >> 4)));
        out.push(char_of((b1 & 15) << 2));
        proof {
            assert(out@ =~= b64_encode(b@));
        }
    } else {
        proof {
            let t = b@.skip(i as int);
            assert(t.len() == 0);
            assert(b64_encode(t) =~= Seq::empty());
            assert(out@ =~= b64_encode(b@));
        }
    }
    out
}

/// Joins a decoded prefix with the decoding of the remainder.
pub open spec fn opt_prepend(p: Seq<u8>, o: Option<Seq<u8>>) -> Option<Seq<u8>> {
    match o {
        Some(r) => Some(p + r),
        None => None,
    }
}

/// Decodes strict base64url without padding; `None` on anything the encoder
/// would not produce.
pub fn decode(s: &Vec<u8>) -> (r: Option<Vec<u8>>)
    ensures
        match r {
            Some(v) => b64_decode(s@) == Some(v@),
            None => b64_decode(s@) is None,
        },
{
    let mut out: Vec<u8> = Vec::new();
    let mut i: usize = 0;
    proof {
        assert(s@.skip(0) =~= s@);
        match b64_decode(s@) {
            Some(v) => {
                assert(out@ + v =~= v);
            },
            None => {},
        }
    }
    while s.len() - i >= 4
        invariant
            i <= s.len(),
            b64_decode(s@) == opt_prepend(out@, b64_decode(s@.skip(i as int))),
        decreases s.len() - i,
    {
        let v0 = val_of(s[i]);
        let v1 = val_of(s[i + 1]);
        let v2 = val_of(s[i + 2]);
        let v3 = val_of(s[i + 3]);
        proof {
            let t = s@.skip(i as int);
            assert(t.len() >= 4);
            assert(t[0] == s@[i as int] && t[1] == s@[i as int + 1] && t[2] == s@[i as int + 2]
                && t[3] == s@[i as int + 3]);
            assert(t.skip(4) =~= s@.skip(i as int + 4));
        }
        match (v0, v1, v2, v3) {
            (Some(v0), Some(v1), Some(v2), Some(v3)) => {
                out.push(((v0 << 2) | (v1 >> 4)));
                out.push((((v1 & 15) << 4) | (v2 >> 2)));
                out.push((((v2 & 3) << 6) | v3));
                proof {
                    let t = s@.skip(i as int);
                    let grp = seq![dec0(v0, v1), dec1(v1, v2), dec2(v2, v3)];
                    assert(b64_decode(t) == opt_prepend(grp, b64_decode(t.skip(4))));
                    match b64_decode(s@.skip(i as int + 4)) {
                        Some(rest) => {
                            assert((out@.subrange(0, out@.len() - 3) + grp) + rest =~= out@ + rest);
                            assert(out@.subrange(0, out@.len() - 3) + (grp + rest) =~= out@ + rest);
                        },
                        None => {},
                    }
                }
                i = i + 4;
            },
            _ => {
                proof {
                    let t = s@.skip(i as int);
                    assert(b64_decode(t) is None);
                }
                return None;
            },
        }
    }
    let rem = s.len() - i;
    if rem == 0 {
        proof {
            assert(s@.skip(i as int).len() == 0);
            assert(b64_decode(s@.skip(i as int)) == Some(Seq::<u8>::empty()));
            assert(out@ + Seq::<u8>::empty() =~= out@);
        }
        Some(out)
    } else if rem == 1 {
        proof {
            assert(s@.skip(i as int).len() == 1);
        }
        None
    } else if rem == 2 {
        let v0 = val_of(s[i]);
        let v1 = val_of(s[i + 1]);
        proof {
            let t = s@.skip(i as int);
            assert(t.len() == 2);
            assert(t[0] == s@[i as int] && t[1] == s@[i as int + 1]);
        }
        match (v0, v1) {
            (Some(v0), Some(v1)) => {
                if v1 & 15 == 0 {
                    out.push((v0 << 2) | (v1 >> 4));
                    proof {
                        let t = s@.skip(i as int);
                        assert(b64_decode(t) == Some(seq![dec0(v0, v1)]));
                        assert(out@.subrange(0, out@.len() - 1) + seq![dec0(v0, v1)] =~= out@);
                    }
                    Some(out)
                } else {
                    None
                }
            },
            _ => None,
        }
    } else {
        let v0 = val_of(s[i]);
        let v1 = val_of(s[i + 1]);
        let v2 = val_of(s[i + 2]);
        proof {
            let t = s@.skip(i as int);
            assert(t.len() == 3);
            assert(t[0] == s@[i as int] && t[1] == s@[i as int + 1] && t[2] == s@[i as int + 2]);
        }
        match (v0, v1, v2) {
            (Some(v0), Some(v1), Some(v2)) => {
                if v2 & 3 == 0 {
                    out.push((v0 << 2) | (v1 >> 4));
                    out.push(((v1 & 15) << 4) | (v2 >> 2));
                    proof {
                        let t = s@.skip(i as int);
                        assert(b64_decode(t) == Some(seq![dec0(v0, v1), dec1(v1, v2)]));
                        assert(out@.subrange(0, out@.len() - 2) + seq![dec0(v0, v1), dec1(v1, v2)]
                            =~= out@);
                    }
                    Some(out)
                } else {
                    None
                }
            },
            _ => None,
        }
    }
}

} // verus!
