//! The hyphenated lowercase hex notation of a 128-bit session identifier,
//! as it appears inside a claim, and an exact parser for it.
use vstd::prelude::*;

verus! {

/// Lowercase hex digit of a 4-bit value.
pub open spec fn hex_digit(v: u8) -> u8
    recommends
        v < 16,
{
    if v < 10 {
        (48 + v) as u8
    } else {
        (87 + v) as u8
    }
}

/// The 4-bit value of a lowercase hex digit, `None` otherwise.
pub open spec fn hex_val(c: u8) -> Option<u8> {
    if 48 <= c && c <= 57 {
        Some((c - 48) as u8)
    } else if 97 <= c && c <= 102 {
        Some((c - 87) as u8)
    } else {
        None
    }
}

pub proof fn lemma_hex_digit_val(v: u8)
    requires
        v < 16,
    ensures
        hex_val(hex_digit(v)) == Some(v),
{
}

pub proof fn lemma_hex_val_digit(c: u8, v: u8)
    requires
        hex_val(c) == Some(v),
    ensures
        v < 16,
        hex_digit(v) == c,
{
}

/// The `i`-th nibble of `v`, most significant first.
pub open spec fn uuid_nibble(v: u128, i: int) -> u8
    recommends
        0 <= i < 32,
{
    (((v >> (((31 - i) * 4) as u128)) & 15) as u8)
}

/// The positions of the four hyphens in the 8-4-4-4-12 layout.
pub open spec fn is_hyphen_pos(i: int) -> bool {
    i == 8 || i == 13 || i == 18 || i == 23
}

/// How many nibbles sit before position `i`.
pub open spec fn nibs_before(i: int) -> int {
    if i <= 8 {
        i
    } else if i <= 13 {
        i - 1
    } else if i <= 18 {
        i - 2
    } else if i <= 23 {
        i - 3
    } else {
        i - 4
    }
}

/// The byte at position `i` of the hyphenated notation.
pub open spec fn uuid_byte(v: u128, i: int) -> u8
    recommends
        0 <= i < 36,
{
    if is_hyphen_pos(i) {
        45u8
    } else {
        hex_digit(uuid_nibble(v, nibs_before(i)))
    }
}

/// The 36-byte hyphenated lowercase hex notation of `v`.
pub open spec fn uuid_str(v: u128) -> Seq<u8> {
    Seq::new(36, |i: int| uuid_byte(v, i))
}

/// Writes `v` in hyphenated lowercase hex.
pub fn enc_uuid(v: u128) -> (r: Vec<u8>)
    ensures
        r@ == uuid_str(v),
{
    let mut out: Vec<u8> = Vec::new();
    let mut i: usize = 0;
    while i < 36
        invariant
            i <= 36,
            out@.len() == i,
            forall|j: int| 0 <= j < i ==> out@[j] == uuid_byte(v, j),
        decreases 36 - i,
    {
        if i == 8 || i == 13 || i == 18 || i == 23 {
            out.push(45);
        } else {
            let nib: usize = if i < 8 {
                i
            } else if i < 13 {
                i - 1
            } else if i < 18 {
                i - 2
            } else if i < 23 {
                i - 3
            } else {
                i - 4
            };
            let sh: u128 = ((31 - nib) as u128) * 4;
            let d: u8 = ((v >> sh) & 15) as u8;
            proof {
                assert(nib == nibs_before(i as int));
                let shg = sh;
                assert((v >> shg) & 15 < 16) by (bit_vector);
            }
            let c: u8 = if d < 10 {
                48 + d
            } else {
                87 + d
            };
            out.push(c);
        }
        i = i + 1;
    }
    proof {
        assert(out@ =~= uuid_str(v));
    }
    out
}

/// Reads the 36-byte hyphenated lowercase hex notation found at `start`;
/// `None` if those bytes are not `uuid_str(v)` for any `v`.
pub fn parse_uuid_at(s: &Vec<u8>, start: usize) -> (r: Option<u128>)
    requires
        start + 36 <= s@.len(),
    ensures
        r matches Some(v) ==> s@.subrange(start as int, start as int + 36) == uuid_str(v),
        forall|v: u128|
            s@.subrange(start as int, start as int + 36) == #[trigger] uuid_str(v) ==> r == Some(
                v,
            ),
{
    let ghost g = s@.subrange(start as int, start as int + 36);
    let n = s.len();
    let mut acc: u128 = 0;
    let mut k: usize = 0;
    let mut i: usize = 0;
    while i < 36
        invariant
            i <= 36,
            n == s@.len(),
            start + 36 <= s@.len(),
            g == s@.subrange(start as int, start as int + 36),
            k == nibs_before(i as int),
            forall|v: u128|
                g == #[trigger] uuid_str(v) ==> (if k == 0 {
                    acc == 0
                } else {
                    acc == v >> (((32 - k) * 4) as u128)
                }),
        decreases 36 - i,
    {
        let b = s[start + i];
        proof {
            assert(g[i as int] == s@[start + i]);
        }
        if i == 8 || i == 13 || i == 18 || i == 23 {
            if b != 45 {
                proof {
                    assert forall|v: u128| g == #[trigger] uuid_str(v) implies false by {
                        assert(uuid_str(v)[i as int] == 45);
                    }
                }
                return None;
            }
        } else {
            let d: u8 = if 48 <= b && b <= 57 {
                b - 48
            } else if 97 <= b && b <= 102 {
                b - 87
            } else {
                proof {
                    assert forall|v: u128| g == #[trigger] uuid_str(v) implies false by {
                        assert(uuid_str(v)[i as int] == hex_digit(uuid_nibble(v, k as int)));
                        let sh = ((31 - k as int) * 4) as u128;
                        assert((v >> sh) & 15 < 16) by (bit_vector);
                        lemma_hex_digit_val(uuid_nibble(v, k as int));
                    }
                }
                return None;
            };
            let ghost old_acc = acc;
            acc = (acc << 4) | (d as u128);
            proof {
                assert forall|v: u128| g == #[trigger] uuid_str(v) implies acc == v >> (((32 - (k
                    + 1)) * 4) as u128) by {
                    assert(uuid_str(v)[i as int] == hex_digit(uuid_nibble(v, k as int)));
                    let sh = ((31 - k as int) * 4) as u128;
                    assert((v >> sh) & 15 < 16) by (bit_vector);
                    lemma_hex_digit_val(uuid_nibble(v, k as int));
                    lemma_hex_val_digit(b, d);
                    assert(d == (((v >> sh) & 15) as u8));
                    if k == 0 {
                        assert(old_acc == 0);
                        assert((0u128 << 4) | ((((v >> 124u128) & 15) as u8) as u128) == v
                            >> 124u128) by (bit_vector);
                        assert(sh == 124u128);
                    } else {
                        let shh: u128 = ((32 - k as int) * 4) as u128;
                        assert(old_acc == v >> shh);
                        assert(4 <= shh <= 124 ==> ((v >> shh) << 4) | ((((v >> ((shh - 4) as u128)) & 15) as u8) as u128)
                            == v >> ((shh - 4) as u128)) by (bit_vector);
                        assert(4 <= shh <= 124);
                        assert(sh == (shh - 4) as u128);
                    }
                }
            }
            k = k + 1;
        }
        i = i + 1;
    }
    proof {
        assert forall|v: u128| g == #[trigger] uuid_str(v) implies acc == v by {
            assert(v >> 0u128 == v) by (bit_vector);
        }
    }
    // What was read must re-encode to the very same bytes.
    let digits = enc_uuid(acc);
    let mut j: usize = 0;
    while j < 36
        invariant
            j <= 36,
            n == s@.len(),
            start + 36 <= s@.len(),
            g == s@.subrange(start as int, start as int + 36),
            digits@ == uuid_str(acc),
            forall|t: int| 0 <= t < j ==> digits@[t] == g[t],
            forall|v: u128| g == #[trigger] uuid_str(v) ==> acc == v,
        decreases 36 - j,
    {
        if digits[j] != s[start + j] {
            proof {
                assert(g[j as int] == s@[start + j]);
                assert forall|v: u128| g == #[trigger] uuid_str(v) implies false by {
                    assert(acc == v);
                }
            }
            return None;
        }
        j = j + 1;
    }
    proof {
        assert(g =~= uuid_str(acc));
    }
    Some(acc)
}


/// Two values with the same hyphenated notation are equal: the 32 nibbles
/// cover all 128 bits.
pub proof fn lemma_uuid_str_inj(v1: u128, v2: u128)
    requires
        uuid_str(v1) == uuid_str(v2),
    ensures
        v1 == v2,
{
    assert forall|j: int| 0 <= j < 32 implies uuid_nibble(v1, j) == uuid_nibble(v2, j) by {
        let pos = if j < 8 {
            j
        } else if j < 12 {
            j + 1
        } else if j < 16 {
            j + 2
        } else if j < 20 {
            j + 3
        } else {
            j + 4
        };
        assert(uuid_str(v1)[pos] == uuid_str(v2)[pos]);
        assert(uuid_str(v1)[pos] == uuid_byte(v1, pos));
        assert(uuid_str(v2)[pos] == uuid_byte(v2, pos));
        assert(nibs_before(pos) == j);
        assert(!is_hyphen_pos(pos));
        assert(hex_digit(uuid_nibble(v1, j)) == hex_digit(uuid_nibble(v2, j)));
        let sh = ((31 - j) * 4) as u128;
        assert((v1 >> sh) & 15 < 16) by (bit_vector);
        assert((v2 >> sh) & 15 < 16) by (bit_vector);
        lemma_hex_digit_val(uuid_nibble(v1, j));
        lemma_hex_digit_val(uuid_nibble(v2, j));
    }
    assert(((v1 >> 124u128) & 15) < 16 && ((v1 >> 120u128) & 15) < 16 && ((v1 >> 116u128) & 15) < 16 && ((v1 >> 112u128) & 15) < 16 && ((v1 >> 108u128) & 15) < 16 && ((v1 >> 104u128) & 15) < 16 && ((v1 >> 100u128) & 15) < 16 && ((v1 >> 96u128) & 15) < 16 && ((v1 >> 92u128) & 15) < 16 && ((v1 >> 88u128) & 15) < 16 && ((v1 >> 84u128) & 15) < 16 && ((v1 >> 80u128) & 15) < 16 && ((v1 >> 76u128) & 15) < 16 && ((v1 >> 72u128) & 15) < 16 && ((v1 >> 68u128) & 15) < 16 && ((v1 >> 64u128) & 15) < 16 && ((v1 >> 60u128) & 15) < 16 && ((v1 >> 56u128) & 15) < 16 && ((v1 >> 52u128) & 15) < 16 && ((v1 >> 48u128) & 15) < 16 && ((v1 >> 44u128) & 15) < 16 && ((v1 >> 40u128) & 15) < 16 && ((v1 >> 36u128) & 15) < 16 && ((v1 >> 32u128) & 15) < 16 && ((v1 >> 28u128) & 15) < 16 && ((v1 >> 24u128) & 15) < 16 && ((v1 >> 20u128) & 15) < 16 && ((v1 >> 16u128) & 15) < 16 && ((v1 >> 12u128) & 15) < 16 && ((v1 >> 8u128) & 15) < 16 && ((v1 >> 4u128) & 15) < 16 && ((v1 >> 0u128) & 15) < 16 && ((v2 >> 124u128) & 15) < 16 && ((v2 >> 120u128) & 15) < 16 && ((v2 >> 116u128) & 15) < 16 && ((v2 >> 112u128) & 15) < 16 && ((v2 >> 108u128) & 15) < 16 && ((v2 >> 104u128) & 15) < 16 && ((v2 >> 100u128) & 15) < 16 && ((v2 >> 96u128) & 15) < 16 && ((v2 >> 92u128) & 15) < 16 && ((v2 >> 88u128) & 15) < 16 && ((v2 >> 84u128) & 15) < 16 && ((v2 >> 80u128) & 15) < 16 && ((v2 >> 76u128) & 15) < 16 && ((v2 >> 72u128) & 15) < 16 && ((v2 >> 68u128) & 15) < 16 && ((v2 >> 64u128) & 15) < 16 && ((v2 >> 60u128) & 15) < 16 && ((v2 >> 56u128) & 15) < 16 && ((v2 >> 52u128) & 15) < 16 && ((v2 >> 48u128) & 15) < 16 && ((v2 >> 44u128) & 15) < 16 && ((v2 >> 40u128) & 15) < 16 && ((v2 >> 36u128) & 15) < 16 && ((v2 >> 32u128) & 15) < 16 && ((v2 >> 28u128) & 15) < 16 && ((v2 >> 24u128) & 15) < 16 && ((v2 >> 20u128) & 15) < 16 && ((v2 >> 16u128) & 15) < 16 && ((v2 >> 12u128) & 15) < 16 && ((v2 >> 8u128) & 15) < 16 && ((v2 >> 4u128) & 15) < 16 && ((v2 >> 0u128) & 15) < 16) by (bit_vector);
    assert(uuid_nibble(v1, 0) == uuid_nibble(v2, 0));
    assert(((v1 >> 124u128) & 15) == ((v2 >> 124u128) & 15));
    assert(uuid_nibble(v1, 1) == uuid_nibble(v2, 1));
    assert(((v1 >> 120u128) & 15) == ((v2 >> 120u128) & 15));
    assert(uuid_nibble(v1, 2) == uuid_nibble(v2, 2));
    assert(((v1 >> 116u128) & 15) == ((v2 >> 116u128) & 15));
    assert(uuid_nibble(v1, 3) == uuid_nibble(v2, 3));
    assert(((v1 >> 112u128) & 15) == ((v2 >> 112u128) & 15));
    assert(uuid_nibble(v1, 4) == uuid_nibble(v2, 4));
    assert(((v1 >> 108u128) & 15) == ((v2 >> 108u128) & 15));
    assert(uuid_nibble(v1, 5) == uuid_nibble(v2, 5));
    assert(((v1 >> 104u128) & 15) == ((v2 >> 104u128) & 15));
    assert(uuid_nibble(v1, 6) == uuid_nibble(v2, 6));
    assert(((v1 >> 100u128) & 15) == ((v2 >> 100u128) & 15));
    assert(uuid_nibble(v1, 7) == uuid_nibble(v2, 7));
    assert(((v1 >> 96u128) & 15) == ((v2 >> 96u128) & 15));
    assert(uuid_nibble(v1, 8) == uuid_nibble(v2, 8));
    assert(((v1 >> 92u128) & 15) == ((v2 >> 92u128) & 15));
    assert(uuid_nibble(v1, 9) == uuid_nibble(v2, 9));
    assert(((v1 >> 88u128) & 15) == ((v2 >> 88u128) & 15));
    assert(uuid_nibble(v1, 10) == uuid_nibble(v2, 10));
    assert(((v1 >> 84u128) & 15) == ((v2 >> 84u128) & 15));
    assert(uuid_nibble(v1, 11) == uuid_nibble(v2, 11));
    assert(((v1 >> 80u128) & 15) == ((v2 >> 80u128) & 15));
    assert(uuid_nibble(v1, 12) == uuid_nibble(v2, 12));
    assert(((v1 >> 76u128) & 15) == ((v2 >> 76u128) & 15));
    assert(uuid_nibble(v1, 13) == uuid_nibble(v2, 13));
    assert(((v1 >> 72u128) & 15) == ((v2 >> 72u128) & 15));
    assert(uuid_nibble(v1, 14) == uuid_nibble(v2, 14));
    assert(((v1 >> 68u128) & 15) == ((v2 >> 68u128) & 15));
    assert(uuid_nibble(v1, 15) == uuid_nibble(v2, 15));
    assert(((v1 >> 64u128) & 15) == ((v2 >> 64u128) & 15));
    assert(uuid_nibble(v1, 16) == uuid_nibble(v2, 16));
    assert(((v1 >> 60u128) & 15) == ((v2 >> 60u128) & 15));
    assert(uuid_nibble(v1, 17) == uuid_nibble(v2, 17));
    assert(((v1 >> 56u128) & 15) == ((v2 >> 56u128) & 15));
    assert(uuid_nibble(v1, 18) == uuid_nibble(v2, 18));
    assert(((v1 >> 52u128) & 15) == ((v2 >> 52u128) & 15));
    assert(uuid_nibble(v1, 19) == uuid_nibble(v2, 19));
    assert(((v1 >> 48u128) & 15) == ((v2 >> 48u128) & 15));
    assert(uuid_nibble(v1, 20) == uuid_nibble(v2, 20));
    assert(((v1 >> 44u128) & 15) == ((v2 >> 44u128) & 15));
    assert(uuid_nibble(v1, 21) == uuid_nibble(v2, 21));
    assert(((v1 >> 40u128) & 15) == ((v2 >> 40u128) & 15));
    assert(uuid_nibble(v1, 22) == uuid_nibble(v2, 22));
    assert(((v1 >> 36u128) & 15) == ((v2 >> 36u128) & 15));
    assert(uuid_nibble(v1, 23) == uuid_nibble(v2, 23));
    assert(((v1 >> 32u128) & 15) == ((v2 >> 32u128) & 15));
    assert(uuid_nibble(v1, 24) == uuid_nibble(v2, 24));
    assert(((v1 >> 28u128) & 15) == ((v2 >> 28u128) & 15));
    assert(uuid_nibble(v1, 25) == uuid_nibble(v2, 25));
    assert(((v1 >> 24u128) & 15) == ((v2 >> 24u128) & 15));
    assert(uuid_nibble(v1, 26) == uuid_nibble(v2, 26));
    assert(((v1 >> 20u128) & 15) == ((v2 >> 20u128) & 15));
    assert(uuid_nibble(v1, 27) == uuid_nibble(v2, 27));
    assert(((v1 >> 16u128) & 15) == ((v2 >> 16u128) & 15));
    assert(uuid_nibble(v1, 28) == uuid_nibble(v2, 28));
    assert(((v1 >> 12u128) & 15) == ((v2 >> 12u128) & 15));
    assert(uuid_nibble(v1, 29) == uuid_nibble(v2, 29));
    assert(((v1 >> 8u128) & 15) == ((v2 >> 8u128) & 15));
    assert(uuid_nibble(v1, 30) == uuid_nibble(v2, 30));
    assert(((v1 >> 4u128) & 15) == ((v2 >> 4u128) & 15));
    assert(uuid_nibble(v1, 31) == uuid_nibble(v2, 31));
    assert(((v1 >> 0u128) & 15) == ((v2 >> 0u128) & 15));
    assert((((v1 >> 124u128) & 15) == ((v2 >> 124u128) & 15) && ((v1 >> 120u128) & 15) == ((v2 >> 120u128) & 15) && ((v1 >> 116u128) & 15) == ((v2 >> 116u128) & 15) && ((v1 >> 112u128) & 15) == ((v2 >> 112u128) & 15) && ((v1 >> 108u128) & 15) == ((v2 >> 108u128) & 15) && ((v1 >> 104u128) & 15) == ((v2 >> 104u128) & 15) && ((v1 >> 100u128) & 15) == ((v2 >> 100u128) & 15) && ((v1 >> 96u128) & 15) == ((v2 >> 96u128) & 15) && ((v1 >> 92u128) & 15) == ((v2 >> 92u128) & 15) && ((v1 >> 88u128) & 15) == ((v2 >> 88u128) & 15) && ((v1 >> 84u128) & 15) == ((v2 >> 84u128) & 15) && ((v1 >> 80u128) & 15) == ((v2 >> 80u128) & 15) && ((v1 >> 76u128) & 15) == ((v2 >> 76u128) & 15) && ((v1 >> 72u128) & 15) == ((v2 >> 72u128) & 15) && ((v1 >> 68u128) & 15) == ((v2 >> 68u128) & 15) && ((v1 >> 64u128) & 15) == ((v2 >> 64u128) & 15) && ((v1 >> 60u128) & 15) == ((v2 >> 60u128) & 15) && ((v1 >> 56u128) & 15) == ((v2 >> 56u128) & 15) && ((v1 >> 52u128) & 15) == ((v2 >> 52u128) & 15) && ((v1 >> 48u128) & 15) == ((v2 >> 48u128) & 15) && ((v1 >> 44u128) & 15) == ((v2 >> 44u128) & 15) && ((v1 >> 40u128) & 15) == ((v2 >> 40u128) & 15) && ((v1 >> 36u128) & 15) == ((v2 >> 36u128) & 15) && ((v1 >> 32u128) & 15) == ((v2 >> 32u128) & 15) && ((v1 >> 28u128) & 15) == ((v2 >> 28u128) & 15) && ((v1 >> 24u128) & 15) == ((v2 >> 24u128) & 15) && ((v1 >> 20u128) & 15) == ((v2 >> 20u128) & 15) && ((v1 >> 16u128) & 15) == ((v2 >> 16u128) & 15) && ((v1 >> 12u128) & 15) == ((v2 >> 12u128) & 15) && ((v1 >> 8u128) & 15) == ((v2 >> 8u128) & 15) && ((v1 >> 4u128) & 15) == ((v2 >> 4u128) & 15) && ((v1 >> 0u128) & 15) == ((v2 >> 0u128) & 15)) ==> v1 == v2) by (bit_vector);
}

} // verus!
