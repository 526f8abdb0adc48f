//! The JSON string notation a claim's text field is written in, over the
//! field's UTF-8 bytes: quote and backslash are escaped, control bytes become
//! `\u00`-escapes, everything else (multi-byte UTF-8 included) passes through.
//!
//! The parser accepts exactly the escaper's output followed by the closing
//! quote, so a parsed field pins the input bytes down.
use vstd::prelude::*;

use crate::uuidfmt::{hex_digit, hex_val, lemma_hex_digit_val, lemma_hex_val_digit};

verus! {

/// The escape of one byte.
pub open spec fn esc_byte(b: u8) -> Seq<u8> {
    if b == 34 {
        seq![92u8, 34u8]
    } else if b == 92 {
        seq![92u8, 92u8]
    } else if b < 32 {
        seq![92u8, 117u8, 48u8, 48u8, hex_digit(b >> 4), hex_digit(b & 15)]
    } else {
        seq![b]
    }
}

/// The escape of a byte sequence.
pub open spec fn esc(s: Seq<u8>) -> Seq<u8>
    decreases s.len(),
{
    if s.len() == 0 {
        Seq::empty()
    } else {
        esc_byte(s[0]) + esc(s.skip(1))
    }
}

/// Escaping distributes over appending one byte.
pub proof fn lemma_esc_snoc(t: Seq<u8>, b: u8)
    ensures
        esc(t.push(b)) == esc(t) + esc_byte(b),
    decreases t.len(),
{
    if t.len() == 0 {
        assert(t.push(b)[0] == b);
        assert(t.push(b).skip(1) =~= Seq::<u8>::empty());
        assert(esc(Seq::<u8>::empty()) == Seq::<u8>::empty());
        assert(esc(t.push(b)) == esc_byte(b) + esc(Seq::<u8>::empty()));
        assert(esc(t) == Seq::<u8>::empty());
        assert(esc(t.push(b)) =~= esc(t) + esc_byte(b));
    } else {
        lemma_esc_snoc(t.skip(1), b);
        assert(t.push(b)[0] == t[0]);
        assert(t.push(b).skip(1) =~= t.skip(1).push(b));
        assert(esc(t.push(b)) == esc_byte(t[0]) + (esc(t.skip(1)) + esc_byte(b)));
        assert(esc_byte(t[0]) + (esc(t.skip(1)) + esc_byte(b)) =~= (esc_byte(t[0]) + esc(t.skip(1)))
            + esc_byte(b));
    }
}

/// What the bytes at `i` must look like when the input from `i` to `e` is
/// the escape of `rest` followed by the closing quote.
proof fn lemma_head(g: Seq<u8>, i: int, e: int, rest: Seq<u8>)
    requires
        0 <= i <= e <= g.len(),
        g.subrange(i, e) == esc(rest) + seq![34u8],
    ensures
        rest.len() == 0 ==> e == i + 1 && g[i] == 34,
        rest.len() > 0 ==> i + esc_byte(rest[0]).len() + 1 <= e,
        rest.len() > 0 ==> (forall|k: int|
            0 <= k < esc_byte(rest[0]).len() ==> g[i + k] == #[trigger] esc_byte(rest[0])[k]),
        rest.len() > 0 ==> g.subrange(i + esc_byte(rest[0]).len(), e) == esc(rest.skip(1)) + seq![
            34u8,
        ],
{
    if rest.len() == 0 {
        assert(esc(rest) == Seq::<u8>::empty());
        assert(g.subrange(i, e) =~= seq![34u8]);
        assert(e - i == 1);
        assert(g[i] == g.subrange(i, e)[0]);
    } else {
        let h = rest[0];
        assert(esc(rest) == esc_byte(h) + esc(rest.skip(1)));
        let kk = esc_byte(h).len() as int;
        assert(g.subrange(i, e).len() == e - i);
        assert((esc(rest) + seq![34u8]).len() == kk + esc(rest.skip(1)).len() + 1);
        assert(e - i == kk + esc(rest.skip(1)).len() + 1);
        assert forall|k: int| 0 <= k < kk implies g[i + k] == #[trigger] esc_byte(h)[k] by {
            assert(g[i + k] == g.subrange(i, e)[k]);
            assert(g.subrange(i, e)[k] == (esc(rest) + seq![34u8])[k]);
            assert((esc(rest) + seq![34u8])[k] == esc(rest)[k]);
            assert(esc(rest)[k] == esc_byte(h)[k]);
        }
        assert(g.subrange(i + kk, e) =~= g.subrange(i, e).skip(kk));
        assert(g.subrange(i, e).skip(kk) =~= esc(rest.skip(1)) + seq![34u8]);
    }
}

/// Reads an escaped string from `start` up to and including its closing
/// quote. Returns the unescaped bytes and the position after the quote;
/// `None` if what starts there is not `esc(t)` + `"` for any `t`.
#[verifier::rlimit(60)]
pub fn parse_string_at(s: &Vec<u8>, start: usize) -> (r: Option<(Vec<u8>, usize)>)
    requires
        start <= s@.len(),
    ensures
        r matches Some(p) ==> start < p.1 <= s@.len() && s@.subrange(start as int, p.1 as int)
            == esc(p.0@) + seq![34u8],
        forall|t: Seq<u8>, e: int|
            #![trigger s@.subrange(start as int, e), esc(t)]
            start <= e <= s@.len() && s@.subrange(start as int, e) == esc(t) + seq![34u8] ==> (
            r is Some && r->Some_0.0@ == t && r->Some_0.1 == e),
{
    let ghost g = s@;
    let n = s.len();
    let mut out: Vec<u8> = Vec::new();
    let mut i: usize = start;
    proof {
        assert(g.subrange(start as int, start as int) =~= esc(out@));
        assert forall|t: Seq<u8>, e: int|
            #![trigger g.subrange(start as int, e), esc(t)]
            start <= e <= g.len() && g.subrange(start as int, e) == esc(t) + seq![
                34u8,
            ] implies (out@.len() <= t.len() && out@ == t.take(out@.len() as int) && i <= e
            && g.subrange(i as int, e) == esc(t.skip(out@.len() as int)) + seq![34u8]) by {
            assert(out@ =~= t.take(0));
            assert(t.skip(0) =~= t);
        }
    }
    while i < n
        invariant
            start <= i <= n,
            n == g.len(),
            s@ == g,
            g.subrange(start as int, i as int) == esc(out@),
            forall|t: Seq<u8>, e: int|
                #![trigger g.subrange(start as int, e), esc(t)]
                start <= e <= g.len() && g.subrange(start as int, e) == esc(t) + seq![34u8] ==> (
                out@.len() <= t.len() && out@ == t.take(out@.len() as int) && i <= e && g.subrange(
                    i as int,
                    e,
                ) == esc(t.skip(out@.len() as int)) + seq![34u8]),
        decreases n - i,
    {
        let b = s[i];
        let ghost m = out@.len() as int;
        if b == 34 {
            proof {
                assert forall|t: Seq<u8>, e: int|
                    #![trigger g.subrange(start as int, e), esc(t)]
                    start <= e <= g.len() && g.subrange(start as int, e) == esc(t) + seq![
                        34u8,
                    ] implies (out@ == t && e == i + 1) by {
                    let rest = t.skip(m);
                    lemma_head(g, i as int, e, rest);
                    if rest.len() > 0 {
                        let h = rest[0];
                        assert(g[i as int] == esc_byte(h)[0]);
                        if h == 34 || h == 92 || h < 32 {
                            assert(esc_byte(h)[0] == 92);
                        } else {
                            assert(esc_byte(h)[0] == h);
                        }
                        assert(false);
                    }
                    assert(t.take(m) =~= t);
                }
                assert(g.subrange(start as int, i as int + 1) =~= esc(out@) + seq![34u8]);
            }
            return Some((out, i + 1));
        } else if b == 92 {
            if i + 1 >= n {
                proof {
                    assert forall|t: Seq<u8>, e: int|
                        #![trigger g.subrange(start as int, e), esc(t)]
                        start <= e <= g.len() && g.subrange(start as int, e) == esc(t) + seq![
                            34u8,
                        ] implies false by {
                        let rest = t.skip(m);
                        lemma_head(g, i as int, e, rest);
                        if rest.len() == 0 {
                            assert(g[i as int] == 34);
                        } else {
                            let h = rest[0];
                            assert(g[i as int] == esc_byte(h)[0]);
                            if h == 34 || h == 92 || h < 32 {
                                assert(esc_byte(h).len() >= 2);
                                assert(e >= i + 3);
                            } else {
                                assert(esc_byte(h)[0] == h);
                            }
                        }
                    }
                }
                return None;
            }
            let c = s[i + 1];
            if c == 34 || c == 92 {
                let ghost prev = out@;
                out.push(c);
                proof {
                    lemma_esc_snoc(prev, c);
                    assert(out@ == prev.push(c));
                    assert(prev =~= out@.take(m));
                    assert(esc_byte(c) =~= seq![92u8, c]);
                    assert(g.subrange(start as int, i as int + 2) =~= g.subrange(
                        start as int,
                        i as int,
                    ) + seq![92u8, c]);
                    assert(g.subrange(start as int, i as int + 2) == esc(out@));
                    assert forall|t: Seq<u8>, e: int|
                        #![trigger g.subrange(start as int, e), esc(t)]
                        start <= e <= g.len() && g.subrange(start as int, e) == esc(t) + seq![
                            34u8,
                        ] implies (out@.len() <= t.len() && out@ == t.take(out@.len() as int) && i
                        + 2 <= e && g.subrange(i as int + 2, e) == esc(t.skip(out@.len() as int))
                        + seq![34u8]) by {
                        let rest = t.skip(m);
                        lemma_head(g, i as int, e, rest);
                        if rest.len() == 0 {
                            assert(g[i as int] == 34);
                            assert(false);
                        }
                        let h = rest[0];
                        assert(g[i as int] == esc_byte(h)[0]);
                        assert(g[i as int] == 92);
                        if !(h == 34 || h == 92 || h < 32) {
                            assert(esc_byte(h)[0] == h);
                            assert(false);
                        }
                        assert(g[i as int + 1] == esc_byte(h)[1]);
                        if h < 32 && h != 34 && h != 92 {
                            assert(esc_byte(h)[1] == 117);
                            assert(false);
                        }
                        assert(h == c);
                        assert(esc_byte(h).len() == 2);
                        assert(rest.skip(1) =~= t.skip(m + 1));
                        assert(out@ =~= t.take(m).push(h));
                        assert(t.take(m).push(h) =~= t.take(m + 1));
                    }
                }
                i = i + 2;
            } else if c == 117 {
                if n - i < 6 {
                    proof {
                        assert forall|t: Seq<u8>, e: int|
                            #![trigger g.subrange(start as int, e), esc(t)]
                            start <= e <= g.len() && g.subrange(start as int, e) == esc(t) + seq![
                                34u8,
                            ] implies false by {
                            let rest = t.skip(m);
                            lemma_head(g, i as int, e, rest);
                            if rest.len() == 0 {
                                assert(g[i as int] == 34);
                            } else {
                                let h = rest[0];
                                assert(g[i as int] == esc_byte(h)[0]);
                                assert(g[i as int + 1] == esc_byte(h)[1]);
                                if !(h == 34 || h == 92 || h < 32) {
                                    assert(esc_byte(h)[0] == h);
                                } else if h == 34 || h == 92 {
                                    assert(esc_byte(h)[1] == h);
                                } else {
                                    assert(esc_byte(h).len() == 6);
                                    assert(e >= i + 7);
                                }
                            }
                        }
                    }
                    return None;
                }
                let h2 = s[i + 2];
                let h3 = s[i + 3];
                let b4 = s[i + 4];
                let b5 = s[i + 5];
                let d1o: Option<u8> = if 48 <= b4 && b4 <= 57 {
                    Some(b4 - 48)
                } else if 97 <= b4 && b4 <= 102 {
                    Some(b4 - 87)
                } else {
                    None
                };
                let d2o: Option<u8> = if 48 <= b5 && b5 <= 57 {
                    Some(b5 - 48)
                } else if 97 <= b5 && b5 <= 102 {
                    Some(b5 - 87)
                } else {
                    None
                };
                proof {
                    assert(d1o == hex_val(b4));
                    assert(d2o == hex_val(b5));
                }
                let mut ok = h2 == 48 && h3 == 48;
                let mut v: u8 = 0;
                match (d1o, d2o) {
                    (Some(d1), Some(d2)) => {
                        if d1 < 2 {
                            v = (d1 << 4) | d2;
                            proof {
                                lemma_hex_val_digit(b4, d1);
                                lemma_hex_val_digit(b5, d2);
                                assert(d1 < 2 && d2 < 16 ==> ((d1 << 4) | d2) < 32 && (((d1 << 4)
                                    | d2) >> 4) == d1 && (((d1 << 4) | d2) & 15)
                                    == d2) by (bit_vector);
                            }
                        } else {
                            ok = false;
                        }
                    },
                    _ => {
                        ok = false;
                    },
                }
                proof {
                    assert forall|t: Seq<u8>, e: int|
                        #![trigger g.subrange(start as int, e), esc(t)]
                        start <= e <= g.len() && g.subrange(start as int, e) == esc(t) + seq![
                            34u8,
                        ] implies (ok && t.skip(m).len() > 0 && t.skip(m)[0] == v && v < 32
                        && v != 34 && v != 92) by {
                        let rest = t.skip(m);
                        lemma_head(g, i as int, e, rest);
                        if rest.len() == 0 {
                            assert(g[i as int] == 34);
                            assert(false);
                        }
                        let h = rest[0];
                        assert(g[i as int] == esc_byte(h)[0]);
                        assert(g[i as int + 1] == esc_byte(h)[1]);
                        if !(h == 34 || h == 92 || h < 32) {
                            assert(esc_byte(h)[0] == h);
                            assert(false);
                        }
                        if h == 34 || h == 92 {
                            assert(esc_byte(h)[1] == h);
                            assert(false);
                        }
                        assert(h < 32);
                        assert(esc_byte(h).len() == 6);
                        assert(g[i as int + 2] == esc_byte(h)[2]);
                        assert(g[i as int + 3] == esc_byte(h)[3]);
                        assert(g[i as int + 4] == esc_byte(h)[4]);
                        assert(g[i as int + 5] == esc_byte(h)[5]);
                        assert(h2 == 48 && h3 == 48);
                        assert(b4 == hex_digit(h >> 4) && b5 == hex_digit(h & 15));
                        assert(h < 32 ==> (h >> 4) < 2 && (h & 15) < 16) by (bit_vector);
                        lemma_hex_digit_val(h >> 4);
                        lemma_hex_digit_val(h & 15);
                        assert(d1o == Some(h >> 4) && d2o == Some(h & 15));
                        assert(h < 32 ==> (((h >> 4) << 4) | (h & 15)) == h) by (bit_vector);
                        assert(v == h);
                    }
                }
                if !ok {
                    return None;
                }
                let ghost prev = out@;
                out.push(v);
                proof {
                    lemma_esc_snoc(prev, v);
                    assert(out@ == prev.push(v));
                    assert(prev =~= out@.take(m));
                    lemma_hex_val_digit(b4, v >> 4);
                    lemma_hex_val_digit(b5, v & 15);
                    assert(esc_byte(v) =~= seq![92u8, 117u8, 48u8, 48u8, b4, b5]);
                    assert(g.subrange(start as int, i as int + 6) =~= g.subrange(
                        start as int,
                        i as int,
                    ) + seq![92u8, 117u8, 48u8, 48u8, b4, b5]);
                    assert(g.subrange(start as int, i as int + 6) == esc(out@));
                    assert forall|t: Seq<u8>, e: int|
                        #![trigger g.subrange(start as int, e), esc(t)]
                        start <= e <= g.len() && g.subrange(start as int, e) == esc(t) + seq![
                            34u8,
                        ] implies (out@.len() <= t.len() && out@ == t.take(out@.len() as int) && i
                        + 6 <= e && g.subrange(i as int + 6, e) == esc(t.skip(out@.len() as int))
                        + seq![34u8]) by {
                        let rest = t.skip(m);
                        lemma_head(g, i as int, e, rest);
                        assert(rest[0] == v);
                        assert(esc_byte(rest[0]).len() == 6);
                        assert(rest.skip(1) =~= t.skip(m + 1));
                        assert(out@ =~= t.take(m).push(v));
                        assert(t.take(m).push(v) =~= t.take(m + 1));
                    }
                }
                i = i + 6;
            } else {
                proof {
                    assert forall|t: Seq<u8>, e: int|
                        #![trigger g.subrange(start as int, e), esc(t)]
                        start <= e <= g.len() && g.subrange(start as int, e) == esc(t) + seq![
                            34u8,
                        ] implies false by {
                        let rest = t.skip(m);
                        lemma_head(g, i as int, e, rest);
                        if rest.len() == 0 {
                            assert(g[i as int] == 34);
                        } else {
                            let h = rest[0];
                            assert(g[i as int] == esc_byte(h)[0]);
                            assert(g[i as int + 1] == esc_byte(h)[1]);
                            if !(h == 34 || h == 92 || h < 32) {
                                assert(esc_byte(h)[0] == h);
                            } else if h == 34 || h == 92 {
                                assert(esc_byte(h)[1] == h);
                            } else {
                                assert(esc_byte(h)[1] == 117);
                            }
                        }
                    }
                }
                return None;
            }
        } else if b < 32 {
            proof {
                assert forall|t: Seq<u8>, e: int|
                    #![trigger g.subrange(start as int, e), esc(t)]
                    start <= e <= g.len() && g.subrange(start as int, e) == esc(t) + seq![
                        34u8,
                    ] implies false by {
                    let rest = t.skip(m);
                    lemma_head(g, i as int, e, rest);
                    if rest.len() == 0 {
                        assert(g[i as int] == 34);
                    } else {
                        let h = rest[0];
                        assert(g[i as int] == esc_byte(h)[0]);
                        if h == 34 || h == 92 || h < 32 {
                            assert(esc_byte(h)[0] == 92);
                        } else {
                            assert(esc_byte(h)[0] == h);
                        }
                    }
                }
            }
            return None;
        } else {
            let ghost prev = out@;
            out.push(b);
            proof {
                lemma_esc_snoc(prev, b);
                assert(out@ == prev.push(b));
                assert(prev =~= out@.take(m));
                assert(esc_byte(b) =~= seq![b]);
                assert(g.subrange(start as int, i as int + 1) =~= g.subrange(
                    start as int,
                    i as int,
                ) + seq![b]);
                assert(g.subrange(start as int, i as int + 1) == esc(out@));
                assert forall|t: Seq<u8>, e: int|
                    #![trigger g.subrange(start as int, e), esc(t)]
                    start <= e <= g.len() && g.subrange(start as int, e) == esc(t) + seq![
                        34u8,
                    ] implies (out@.len() <= t.len() && out@ == t.take(out@.len() as int) && i + 1
                    <= e && g.subrange(i as int + 1, e) == esc(t.skip(out@.len() as int)) + seq![
                    34u8,
                ]) by {
                    let rest = t.skip(m);
                    lemma_head(g, i as int, e, rest);
                    if rest.len() == 0 {
                        assert(g[i as int] == 34);
                        assert(false);
                    }
                    let h = rest[0];
                    assert(g[i as int] == esc_byte(h)[0]);
                    if h == 34 || h == 92 || h < 32 {
                        assert(esc_byte(h)[0] == 92);
                        assert(false);
                    }
                    assert(esc_byte(h) == seq![h]);
                    assert(h == b);
                    assert(rest.skip(1) =~= t.skip(m + 1));
                    assert(out@ =~= t.take(m).push(h));
                    assert(t.take(m).push(h) =~= t.take(m + 1));
                }
            }
            i = i + 1;
        }
    }
    proof {
        assert forall|t: Seq<u8>, e: int|
            #![trigger g.subrange(start as int, e), esc(t)]
            start <= e <= g.len() && g.subrange(start as int, e) == esc(t) + seq![
                34u8,
            ] implies false by {
            let rest = t.skip(out@.len() as int);
            lemma_head(g, i as int, e, rest);
            if rest.len() == 0 {
                assert(e == i + 1);
            } else {
                assert(e >= i + 2);
            }
        }
    }
    None
}

/// Escapes a byte sequence for embedding between quotes.
pub fn escape(s: &Vec<u8>) -> (r: Vec<u8>)
    ensures
        r@ == esc(s@),
{
    let mut out: Vec<u8> = Vec::new();
    let mut i: usize = 0;
    proof {
        assert(s@.skip(0) =~= s@);
        assert(out@ + esc(s@) =~= esc(s@));
    }
    while i < s.len()
        invariant
            i <= s@.len(),
            esc(s@) == out@ + esc(s@.skip(i as int)),
        decreases s@.len() - i,
    {
        let b = s[i];
        proof {
            let rest = s@.skip(i as int);
            assert(rest[0] == b);
            assert(esc(rest) == esc_byte(b) + esc(rest.skip(1)));
            assert(rest.skip(1) =~= s@.skip(i as int + 1));
        }
        if b == 34 {
            out.push(92);
            out.push(34);
        } else if b == 92 {
            out.push(92);
            out.push(92);
        } else if b < 32 {
            out.push(92);
            out.push(117);
            out.push(48);
            out.push(48);
            let d1 = b >> 4;
            let d2 = b & 15;
            proof {
                assert(b < 32 ==> (b >> 4) < 10 && (b & 15) < 16) by (bit_vector);
            }
            out.push(if d1 < 10 {
                48 + d1
            } else {
                87 + d1
            });
            out.push(if d2 < 10 {
                48 + d2
            } else {
                87 + d2
            });
        } else {
            out.push(b);
        }
        proof {
            assert(out@ + esc(s@.skip(i as int + 1)) =~= esc(s@));
        }
        i = i + 1;
    }
    proof {
        assert(s@.skip(i as int) =~= Seq::<u8>::empty());
        assert(out@ =~= esc(s@));
    }
    out
}

} // verus!
