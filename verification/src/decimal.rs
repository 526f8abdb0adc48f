//! Canonical decimal notation for unsigned integers: the digits a claim's
//! numeric fields are written in, and an exact parser for them.
//!
//! The parser accepts precisely `dec_digits(n)` for some `n: u64` — no
//! leading zeros, no overflow — so a parsed value pins the input bytes down.
use vstd::prelude::*;

verus! {

/// Decimal digits of `n`, most significant first.
pub open spec fn dec_digits(n: nat) -> Seq<u8>
    decreases n,
{
    if n < 10 {
        seq![(48 + n) as u8]
    } else {
        dec_digits(n / 10) + seq![(48 + n % 10) as u8]
    }
}

/// An ASCII digit.
pub open spec fn is_digit(b: u8) -> bool {
    48 <= b <= 57
}

/// The number a digit sequence denotes.
pub open spec fn dec_val(s: Seq<u8>) -> nat
    decreases s.len(),
{
    if s.len() == 0 {
        0
    } else {
        dec_val(s.drop_last()) * 10 + (if is_digit(s.last()) {
            (s.last() - 48) as nat
        } else {
            0
        })
    }
}

/// `dec_digits` is non-empty and consists of digits.
pub proof fn lemma_dec_digits_shape(n: nat)
    ensures
        dec_digits(n).len() >= 1,
        forall|i: int| 0 <= i < dec_digits(n).len() ==> is_digit(#[trigger] dec_digits(n)[i]),
    decreases n,
{
    if n >= 10 {
        lemma_dec_digits_shape(n / 10);
    }
}

/// A positive number's digits never start with a zero.
pub proof fn lemma_dec_digits_leading(n: nat)
    ensures
        n >= 1 ==> dec_digits(n)[0] > 48,
        n == 0 ==> dec_digits(n) == seq![48u8],
    decreases n,
{
    if n >= 10 {
        lemma_dec_digits_leading(n / 10);
        lemma_dec_digits_shape(n / 10);
    } else if n == 0 {
        assert(dec_digits(0) =~= seq![48u8]);
    }
}

/// Reading the digits of `n` back gives `n`.
pub proof fn lemma_dec_val_of_digits(n: nat)
    ensures
        dec_val(dec_digits(n)) == n,
    decreases n,
{
    if n < 10 {
        assert(dec_digits(n) == seq![(48 + n) as u8]);
        assert(dec_digits(n).drop_last() =~= Seq::<u8>::empty());
        assert(dec_digits(n).last() == (48 + n) as u8);
        assert(dec_val(Seq::<u8>::empty()) == 0);
        assert(is_digit((48 + n) as u8));
        assert(dec_val(dec_digits(n)) == ((48 + n) as u8 - 48) as nat);
    } else {
        lemma_dec_val_of_digits(n / 10);
        vstd::arithmetic::div_mod::lemma_fundamental_div_mod(n as int, 10);
        assert(0 <= n % 10 < 10);
        assert(dec_digits(n).drop_last() =~= dec_digits(n / 10));
        assert(dec_digits(n).last() == (48 + n % 10) as u8);
        assert(is_digit((48 + n % 10) as u8));
        assert(dec_val(dec_digits(n)) == (n / 10) * 10 + (((48 + n % 10) as u8 - 48) as nat));
        assert(((48 + n % 10) as u8 - 48) as nat == n % 10);
    }
}

/// The value of a digit prefix never exceeds the value of the whole.
pub proof fn lemma_dec_val_prefix(s: Seq<u8>, i: int)
    requires
        0 <= i <= s.len(),
    ensures
        dec_val(s.take(i)) <= dec_val(s),
    decreases s.len() - i,
{
    if i < s.len() {
        lemma_dec_val_prefix(s, i + 1);
        assert(s.take(i + 1).drop_last() =~= s.take(i));
        assert(dec_val(s.take(i + 1)) == dec_val(s.take(i)) * 10 + (if is_digit(s.take(i + 1).last()) {
            (s.take(i + 1).last() - 48) as nat
        } else {
            0
        }));
    } else {
        assert(s.take(i) =~= s);
    }
}

/// Exec mirror of `dec_digits`.
pub fn enc_u64(n: u64) -> (r: Vec<u8>)
    ensures
        r@ == dec_digits(n as nat),
    decreases n,
{
    if n < 10 {
        let mut v: Vec<u8> = Vec::new();
        v.push(48 + (n as u8));
        proof {
            assert(v@ =~= dec_digits(n as nat));
        }
        v
    } else {
        let mut v = enc_u64(n / 10);
        v.push(48 + ((n % 10) as u8));
        proof {
            assert(v@ =~= dec_digits(n as nat));
        }
        v
    }
}

/// Parses the canonical decimal of a `u64` starting at `start`, stopping at
/// the first non-digit. Returns the value and the position after its digits;
/// `None` if what starts there is not `dec_digits(n)` for any `n: u64`
/// followed by a non-digit (or the end).
pub fn parse_u64_at(s: &Vec<u8>, start: usize) -> (r: Option<(u64, usize)>)
    requires
        start <= s@.len(),
    ensures
        r matches Some(p) ==> start < p.1 <= s@.len() && s@.subrange(start as int, p.1 as int)
            == dec_digits(p.0 as nat) && (p.1 == s@.len() || !is_digit(s@[p.1 as int])),
        forall|n: u64, e: int|
            #![trigger s@.subrange(start as int, e), dec_digits(n as nat)]
            start <= e <= s@.len() && s@.subrange(start as int, e) == dec_digits(n as nat) && (e
                == s@.len() || !is_digit(s@[e])) ==> r == Some((n, e as usize)),
{
    let ghost g = s@;
    if start == s.len() || !(48 <= s[start] && s[start] <= 57) {
        proof {
            assert forall|n: u64, e: int|
                #![trigger g.subrange(start as int, e), dec_digits(n as nat)]
                start <= e <= g.len() && g.subrange(start as int, e) == dec_digits(n as nat) && (e == g.len() || !is_digit(g[e])) implies false by {
                lemma_dec_digits_shape(n as nat);
                assert(g.subrange(start as int, e).len() >= 1);
                assert(g[start as int] == dec_digits(n as nat)[0]);
                assert(is_digit(g[start as int]));
            }
        }
        return None;
    }
    if s[start] == 48 {
        // A leading zero is canonical only for the single digit "0".
        if start + 1 < s.len() && 48 <= s[start + 1] && s[start + 1] <= 57 {
            proof {
                assert forall|n: u64, e: int|
                    #![trigger g.subrange(start as int, e), dec_digits(n as nat)]
                    start <= e <= g.len() && g.subrange(start as int, e) == dec_digits(n as nat) && (e == g.len() || !is_digit(g[e])) implies false by {
                    lemma_dec_digits_shape(n as nat);
                    lemma_dec_digits_leading(n as nat);
                    assert(g[start as int] == dec_digits(n as nat)[0]);
                    assert(n == 0);
                    assert(e == start + 1);
                    assert(is_digit(g[e]));
                }
            }
            return None;
        }
        proof {
            assert(g.subrange(start as int, start as int + 1) =~= dec_digits(0nat));
            assert forall|n: u64, e: int|
                #![trigger g.subrange(start as int, e), dec_digits(n as nat)]
                start <= e <= g.len() && g.subrange(start as int, e) == dec_digits(n as nat) && (e == g.len() || !is_digit(g[e])) implies n == 0 && e == start + 1 by {
                lemma_dec_digits_shape(n as nat);
                lemma_dec_digits_leading(n as nat);
                assert(g[start as int] == dec_digits(n as nat)[0]);
            }
        }
        return Some((0, start + 1));
    }
    let mut acc: u64 = 0;
    let mut i: usize = start;
    proof {
        assert(g.subrange(start as int, start as int) =~= Seq::<u8>::empty());
    }
    while i < s.len() && 48 <= s[i] && s[i] <= 57
        invariant
            start <= i <= s@.len(),
            s@ == g,
            forall|j: int| start <= j < i ==> is_digit(#[trigger] g[j]),
            acc as nat == dec_val(g.subrange(start as int, i as int)),
        decreases s@.len() - i,
    {
        let d = s[i] - 48;
        // The next digit would overflow only if no u64 has these digits.
        if acc > (u64::MAX - (d as u64)) / 10 {
            proof {
                assert forall|n: u64, e: int|
                    #![trigger g.subrange(start as int, e), dec_digits(n as nat)]
                    start <= e <= g.len() && g.subrange(start as int, e) == dec_digits(n as nat) && (e == g.len() || !is_digit(g[e])) implies false by {
                    lemma_dec_digits_shape(n as nat);
                    lemma_dec_val_of_digits(n as nat);
                    // i lies inside the digit run of n.
                    assert(i < e);
                    lemma_dec_val_prefix(g.subrange(start as int, e), i + 1 - start);
                    assert(g.subrange(start as int, e).take(i + 1 - start) =~= g.subrange(
                        start as int,
                        i as int + 1,
                    ));
                    assert(g.subrange(start as int, i as int + 1).drop_last() =~= g.subrange(
                        start as int,
                        i as int,
                    ));
                    assert(dec_val(g.subrange(start as int, i as int + 1)) == acc as nat * 10
                        + d as nat);
                    assert(acc as nat * 10 + d as nat <= n as nat);
                }
            }
            return None;
        }
        proof {
            assert(g.subrange(start as int, i as int + 1).drop_last() =~= g.subrange(
                start as int,
                i as int,
            ));
        }
        acc = acc * 10 + (d as u64);
        i = i + 1;
    }
    // Soundness: what was read must re-encode to the very same bytes.
    let digits = enc_u64(acc);
    let mut k: usize = 0;
    proof {
        // Completeness: a canonical run here ends exactly at the first
        // non-digit, and its value is what was accumulated.
        assert forall|n: u64, e: int|
            #![trigger g.subrange(start as int, e), dec_digits(n as nat)]
            start <= e <= g.len() && g.subrange(start as int, e) == dec_digits(n as nat) && (e
                == g.len() || !is_digit(g[e])) implies n as nat == acc as nat && e == i by {
            lemma_dec_digits_shape(n as nat);
            assert forall|j: int| start <= j < e implies is_digit(#[trigger] g[j]) by {
                assert(g[j] == g.subrange(start as int, e)[j - start]);
            }
            assert(e == i);
            lemma_dec_val_of_digits(n as nat);
        }
        lemma_dec_digits_shape(acc as nat);
    }
    if digits.len() != i - start {
        proof {
            lemma_dec_val_of_digits(acc as nat);
        }
        return None;
    }
    while k < digits.len()
        invariant
            start <= i <= s@.len(),
            s@ == g,
            k <= digits.len(),
            digits.len() == i - start,
            digits@ == dec_digits(acc as nat),
            forall|j: int| 0 <= j < k ==> digits@[j] == g[start + j],
            forall|j: int| start <= j < i ==> is_digit(#[trigger] g[j]),
            i == g.len() || !is_digit(g[i as int]),
            acc as nat == dec_val(g.subrange(start as int, i as int)),
        decreases digits.len() - k,
    {
        if digits[k] != s[start + k] {
            proof {
                assert forall|n: u64, e: int|
                    #![trigger g.subrange(start as int, e), dec_digits(n as nat)]
                    start <= e <= g.len() && g.subrange(start as int, e) == dec_digits(n as nat) && (e == g.len() || !is_digit(g[e])) implies false by {
                    lemma_dec_digits_shape(n as nat);
                    assert forall|j: int| start <= j < e implies is_digit(#[trigger] g[j]) by {
                        assert(g[j] == g.subrange(start as int, e)[j - start]);
                    }
                    assert(e == i);
                    lemma_dec_val_of_digits(n as nat);
                    assert(n == acc);
                    assert(g.subrange(start as int, e)[k as int] == g[start + k]);
                }
            }
            return None;
        }
        k = k + 1;
    }
    proof {
        assert(g.subrange(start as int, i as int) =~= dec_digits(acc as nat));
    }
    Some((acc, i))
}

} // verus!
