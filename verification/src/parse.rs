//! The decimal parser: turns a numeric-text fragment plus a power-of-ten
//! scale into the equivalent count of smallest units, or reports exactly
//! why it cannot.

use vstd::prelude::*;

use crate::digits::{
    all_digits, digit_val, digits_val, is_dec_digit, is_pow10, lemma_digits_val_bound,
    lemma_digits_val_prefix, lemma_pow10_adds, lemma_pow10_div, lemma_pow10_increases,
    lemma_pow10_pos, lemma_pow10_strictly_increases, pow10,
};
use crate::error::DecimalNumberParsingError;

verus! {

/// The index of the first decimal point in `s`, or -1 when there is none.
pub open spec fn find_dot(s: Seq<char>) -> int
    decreases s.len(),
{
    if s.len() == 0 {
        -1
    } else if s[0] == '.' {
        0
    } else {
        let r = find_dot(s.subrange(1, s.len() as int));
        if r < 0 {
            -1
        } else {
            1 + r
        }
    }
}

/// The run of characters before the first decimal point; all of `s` when
/// there is no point.
pub open spec fn whole_run(s: Seq<char>) -> Seq<char> {
    if find_dot(s) < 0 {
        s
    } else {
        s.take(find_dot(s))
    }
}

/// The run of characters after the first decimal point; empty when there
/// is no point.
pub open spec fn frac_run(s: Seq<char>) -> Seq<char> {
    if find_dot(s) < 0 {
        Seq::empty()
    } else {
        s.skip(find_dot(s) + 1)
    }
}

/// Whether `s` is a well-formed numeric fragment: a nonempty run of
/// digits, optionally followed by a decimal point and another nonempty
/// run of digits, and nothing else.
pub open spec fn valid_fragment(s: Seq<char>) -> bool {
    &&& whole_run(s).len() > 0
    &&& all_digits(whole_run(s))
    &&& (find_dot(s) >= 0 ==> frac_run(s).len() > 0 && all_digits(frac_run(s)))
}

/// The exact count a well-formed fragment denotes at the given scale:
/// the whole run times the scale, plus the fractional run times the
/// scale shifted down by one decimal place per fractional digit.
pub open spec fn fragment_value(s: Seq<char>, scale: nat) -> nat {
    digits_val(whole_run(s)) * scale + digits_val(frac_run(s)) * (scale / pow10(frac_run(s).len()))
}

/// Whether the parser succeeds on this fragment at this scale: the
/// fragment is well formed, the fractional run fits the scale's decimal
/// places, and the denoted count fits the 128-bit width.
pub open spec fn parse_ok(s: Seq<char>, scale: nat) -> bool {
    &&& valid_fragment(s)
    &&& pow10(frac_run(s).len()) <= scale
    &&& fragment_value(s, scale) <= u128::MAX
}

/// Which error the parser reports for this fragment at this scale, and
/// what text it carries.
pub open spec fn parse_err_matches(
    e: &DecimalNumberParsingError,
    s: Seq<char>,
    scale: nat,
) -> bool {
    match e {
        DecimalNumberParsingError::InvalidNumber(t) => t@ == s && !valid_fragment(s),
        DecimalNumberParsingError::LongFractional(t) => valid_fragment(s) && t@ == frac_run(s)
            && pow10(frac_run(s).len()) > scale,
        DecimalNumberParsingError::LongWhole(t) => valid_fragment(s) && t@ == whole_run(s)
            && pow10(frac_run(s).len()) <= scale && fragment_value(s, scale) > u128::MAX,
    }
}

/// Locates `find_dot` from a scan: no point before `k`, and a point at
/// `k` unless `k` is the length.
proof fn lemma_find_dot_at(s: Seq<char>, k: int)
    requires
        0 <= k <= s.len(),
        forall|j: int| 0 <= j < k ==> s[j] != '.',
        k < s.len() ==> s[k] == '.',
    ensures
        find_dot(s) == if k < s.len() {
            k
        } else {
            -1
        },
    decreases s.len(),
{
    if s.len() == 0 {
    } else if s[0] == '.' {
        assert(k == 0);
    } else {
        let t = s.subrange(1, s.len() as int);
        assert(k >= 1);
        lemma_find_dot_at(t, k - 1);
    }
}

/// A fragment with no point anywhere in a scanned prefix has its first
/// point, if any, beyond that prefix.
proof fn lemma_find_dot_beyond(s: Seq<char>, m: int)
    requires
        0 <= m <= s.len(),
        forall|j: int| 0 <= j < m ==> s[j] != '.',
    ensures
        find_dot(s) < 0 || find_dot(s) >= m,
    decreases m,
{
    if m > 0 && s.len() > 0 {
        let t = s.subrange(1, s.len() as int);
        lemma_find_dot_beyond(t, m - 1);
    }
}

/// A found first point lies inside the fragment and is a point.
proof fn lemma_find_dot_bounds(s: Seq<char>)
    ensures
        find_dot(s) >= 0 ==> find_dot(s) < s.len() && s[find_dot(s)] == '.',
    decreases s.len(),
{
    if s.len() > 0 && s[0] != '.' {
        lemma_find_dot_bounds(s.subrange(1, s.len() as int));
    }
}

/// Parses a numeric-text fragment at a power-of-ten scale into the exact
/// count of smallest units it denotes. Fails with `InvalidNumber` when
/// the fragment is not digits with one optional inner decimal point,
/// with `LongFractional` when the fractional run has more digits than
/// the scale has decimal places, and with `LongWhole` when the denoted
/// count exceeds the 128-bit width.
pub(crate) fn parse_decimal_number(s: &str, pref_const: u128) -> (r: Result<
    u128,
    DecimalNumberParsingError,
>)
    requires
        is_pow10(pref_const as nat),
    ensures
        match r {
            Ok(v) => parse_ok(s@, pref_const as nat) && v == fragment_value(
                s@,
                pref_const as nat,
            ),
            Err(e) => !parse_ok(s@, pref_const as nat) && parse_err_matches(
                &e,
                s@,
                pref_const as nat,
            ),
        },
{
    proof {
        assert(is_pow10(pref_const as nat));
    }
    let ghost k = choose|e: nat| pref_const as nat == pow10(e);
    proof {
        assert(pref_const as nat == pow10(k));
        lemma_pow10_pos(k);
    }
    let n = s.unicode_len();
    // Scan the shape: digits with at most one inner decimal point.
    let mut i: usize = 0;
    let mut dot: usize = n;
    while i < n
        invariant
            n == s@.len(),
            i <= n,
            dot < n ==> dot < i && s@[dot as int] == '.' && (forall|j: int|
                0 <= j < dot ==> s@[j] != '.'),
            dot >= n ==> dot == n && (forall|j: int| 0 <= j < i ==> s@[j] != '.'),
            forall|j: int| 0 <= j < i && j != dot ==> is_dec_digit(#[trigger] s@[j]),
        decreases n - i,
    {
        let c = s.get_char(i);
        if c == '.' {
            if dot < n {
                proof {
                    lemma_find_dot_at(s@, dot as int);
                    assert(frac_run(s@)[i - dot - 1] == s@[i as int]);
                    assert(!is_dec_digit(s@[i as int]));
                    assert(!valid_fragment(s@));
                }
                return Err(DecimalNumberParsingError::InvalidNumber(s.to_owned()));
            }
            dot = i;
        } else {
            let u = c as u32;
            if !(48 <= u && u <= 57) {
                proof {
                    assert(!is_dec_digit(s@[i as int]));
                    if dot < n {
                        lemma_find_dot_at(s@, dot as int);
                        assert(frac_run(s@)[i - dot - 1] == s@[i as int]);
                    } else {
                        lemma_find_dot_beyond(s@, i + 1);
                        lemma_find_dot_bounds(s@);
                        let fd = find_dot(s@);
                        if fd < 0 {
                            assert(whole_run(s@)[i as int] == s@[i as int]);
                        } else {
                            assert(whole_run(s@)[i as int] == s@[i as int]);
                        }
                    }
                    assert(!valid_fragment(s@));
                }
                return Err(DecimalNumberParsingError::InvalidNumber(s.to_owned()));
            }
        }
        i += 1;
    }
    let wl = if dot < n {
        dot
    } else {
        n
    };
    proof {
        if dot < n {
            lemma_find_dot_at(s@, dot as int);
        } else {
            lemma_find_dot_at(s@, n as int);
        }
    }
    if wl == 0 {
        proof {
            assert(whole_run(s@).len() == 0);
        }
        return Err(DecimalNumberParsingError::InvalidNumber(s.to_owned()));
    }
    if dot < n && dot + 1 == n {
        proof {
            assert(frac_run(s@).len() == 0);
        }
        return Err(DecimalNumberParsingError::InvalidNumber(s.to_owned()));
    }
    let ghost wr = whole_run(s@);
    let ghost fr = frac_run(s@);
    proof {
        assert(wr =~= s@.take(wl as int));
        if dot < n {
            assert(fr =~= s@.skip(dot + 1));
        }
        assert(valid_fragment(s@));
    }
    // The fractional run, shifting the scale down one place per digit.
    let mut f: u128 = 0;
    if dot < n {
        let mut u: u128 = pref_const;
        let mut t: usize = dot + 1;
        proof {
            assert(fr.take(0) =~= Seq::<char>::empty());
            assert(digits_val(fr.take(0)) == 0);
            assert(digits_val(fr.take(0)) * (pref_const as nat) == 0) by (nonlinear_arith)
                requires
                    digits_val(fr.take(0)) == 0,
            ;
        }
        while t < n
            invariant
                n == s@.len(),
                dot < n,
                dot + 1 <= t <= n,
                valid_fragment(s@),
                find_dot(s@) == dot as int,
                fr == frac_run(s@),
                fr.len() == n - dot - 1,
                pref_const as nat == pow10(k),
                t - dot - 1 <= k,
                u as nat == pow10((k - (t - dot - 1)) as nat),
                f as nat == digits_val(fr.take(t - dot - 1)) * (u as nat),
            decreases n - t,
        {
            let ghost fi = (t - dot - 1) as nat;
            if u == 1 {
                proof {
                    if k > fi {
                        lemma_pow10_strictly_increases(0, (k - fi) as nat);
                        assert(false);
                    }
                    assert(fi == k);
                    assert(fr.len() >= fi + 1);
                    lemma_pow10_strictly_increases(k, fr.len());
                }
                let fs = s.substring_char(dot + 1, n);
                proof {
                    assert(fs@ =~= fr);
                }
                return Err(DecimalNumberParsingError::LongFractional(fs.to_owned()));
            }
            let c = s.get_char(t);
            proof {
                assert(fr[fi as int] == s@[t as int]);
                assert(is_dec_digit(s@[t as int]));
            }
            let d = (c as u32 - 48) as u128;
            let ghost u_old = u as nat;
            let ghost dv = digits_val(fr.take(fi as int));
            u = u / 10;
            proof {
                // The scale shifts down exactly one decimal place.
                assert(k - fi >= 1) by {
                    if k == fi {
                        assert(pow10(0) == 1);
                    }
                };
                let e1 = (k - fi - 1) as nat;
                assert(u_old == 10 * pow10(e1));
                vstd::arithmetic::div_mod::lemma_div_multiples_vanish(
                    pow10(e1) as int,
                    10,
                );
                assert(u as nat == pow10(e1));
                // Headroom: the new contribution keeps the total below the scale.
                let p = pow10(fi);
                let uu = pow10(e1);
                assert(all_digits(fr.take(fi as int)));
                lemma_digits_val_bound(fr.take(fi as int));
                assert(dv <= p - 1);
                assert(dv * u_old <= (p - 1) * (10 * uu)) by (nonlinear_arith)
                    requires
                        dv <= p - 1,
                        u_old == 10 * uu,
                        uu >= 0,
                        dv >= 0,
                ;
                assert((p - 1) * (10 * uu) + 9 * uu == 10 * p * uu - uu) by (nonlinear_arith);
                assert(pow10((fi + 1) as nat) == 10 * p);
                lemma_pow10_adds((fi + 1) as nat, e1);
                assert((fi + 1) as nat + e1 == k);
                assert(pow10((fi + 1) as nat) * uu == pow10(k));
                assert(10 * p * uu == pow10(k)) by (nonlinear_arith)
                    requires
                        pow10((fi + 1) as nat) == 10 * p,
                        pow10((fi + 1) as nat) * uu == pow10(k),
                ;
                assert(f + 9 * uu <= pow10(k) - uu);
                assert(uu >= 1) by {
                    lemma_pow10_pos(e1);
                };
                assert(d as nat <= 9);
                assert(d * u <= 9 * uu) by (nonlinear_arith)
                    requires
                        d as nat <= 9,
                        u as nat == uu,
                        uu >= 0,
                ;
            }
            f = f + d * u;
            proof {
                // The accumulated value is the processed digits at the new scale.
                let uu = u as nat;
                assert(fr.take(fi as int + 1).drop_last() =~= fr.take(fi as int));
                assert(fr.take(fi as int + 1).last() == fr[fi as int]);
                assert(digit_val(fr[fi as int]) == d as nat);
                assert(digits_val(fr.take(fi as int + 1)) == dv * 10 + d);
                assert((dv * 10 + d) * uu == dv * (10 * uu) + d * uu) by (nonlinear_arith);
            }
            t += 1;
        }
        proof {
            assert(fr.take(fr.len() as int) =~= fr);
        }
    } else {
        proof {
            assert(fr.len() == 0);
            assert(fr.take(0) =~= fr);
            assert(digits_val(fr) == 0);
        }
    }
    let ghost fl = fr.len();
    let ghost u_final = pow10((k - fl) as nat);
    proof {
        lemma_pow10_increases(fl, k);
        lemma_pow10_div(fl, k);
        assert(pref_const as nat / pow10(fl) == u_final);
        if dot >= n {
            assert(f as nat == digits_val(fr) * u_final) by (nonlinear_arith)
                requires
                    f == 0,
                    digits_val(fr) == 0,
            ;
        }
        assert(f as nat == digits_val(fr) * (pref_const as nat / pow10(fl)));
    }
    // The whole run, scaled up and joined with the fractional part.
    let mut w: u128 = 0;
    let mut j: usize = 0;
    proof {
        assert(wr.take(0) =~= Seq::<char>::empty());
    }
    while j < wl
        invariant
            n == s@.len(),
            wl <= n,
            j <= wl,
            valid_fragment(s@),
            wr == whole_run(s@),
            wr =~= s@.take(wl as int),
            pref_const as nat == pow10(k),
            pref_const >= 1,
            fr == frac_run(s@),
            pow10(fr.len()) <= pref_const,
            f as nat == digits_val(fr) * (pref_const as nat / pow10(fr.len())),
            w as nat == digits_val(wr.take(j as int)),
        decreases wl - j,
    {
        let c = s.get_char(j);
        proof {
            assert(wr[j as int] == s@[j as int]);
            assert(is_dec_digit(s@[j as int]));
        }
        let d = (c as u32 - 48) as u128;
        let ghost dv = digits_val(wr.take(j as int));
        proof {
            assert(wr.take(j as int + 1).drop_last() =~= wr.take(j as int));
            assert(wr.take(j as int + 1).last() == wr[j as int]);
            assert(digit_val(wr[j as int]) == d as nat);
            assert(digits_val(wr.take(j as int + 1)) == dv * 10 + d);
        }
        let w10 = match w.checked_mul(10) {
            Some(x) => x,
            None => {
                proof {
                    lemma_whole_overflow(s@, pref_const as nat, j as int, dv * 10 + d as nat);
                }
                let ws = s.substring_char(0, wl);
                proof {
                    assert(ws@ =~= wr);
                }
                return Err(DecimalNumberParsingError::LongWhole(ws.to_owned()));
            },
        };
        let w2 = match w10.checked_add(d) {
            Some(x) => x,
            None => {
                proof {
                    lemma_whole_overflow(s@, pref_const as nat, j as int, dv * 10 + d as nat);
                }
                let ws = s.substring_char(0, wl);
                proof {
                    assert(ws@ =~= wr);
                }
                return Err(DecimalNumberParsingError::LongWhole(ws.to_owned()));
            },
        };
        w = w2;
        j += 1;
    }
    proof {
        assert(wr.take(wl as int) =~= wr);
    }
    let scaled = match w.checked_mul(pref_const) {
        Some(x) => x,
        None => {
            proof {
                lemma_value_exceeds(s@, pref_const as nat);
            }
            let ws = s.substring_char(0, wl);
            proof {
                assert(ws@ =~= wr);
            }
            return Err(DecimalNumberParsingError::LongWhole(ws.to_owned()));
        },
    };
    let total = match scaled.checked_add(f) {
        Some(x) => x,
        None => {
            let ws = s.substring_char(0, wl);
            proof {
                assert(ws@ =~= wr);
            }
            return Err(DecimalNumberParsingError::LongWhole(ws.to_owned()));
        },
    };
    Ok(total)
}

/// When some prefix of the whole run already exceeds the width, the
/// fragment's value does too.
proof fn lemma_whole_overflow(s: Seq<char>, scale: nat, j: int, dvj: nat)
    requires
        valid_fragment(s),
        scale >= 1,
        0 <= j < whole_run(s).len(),
        dvj == digits_val(whole_run(s).take(j + 1)),
        dvj > u128::MAX,
    ensures
        fragment_value(s, scale) > u128::MAX,
{
    let wr = whole_run(s);
    lemma_digits_val_prefix(wr, j + 1);
    assert(digits_val(wr) >= dvj);
    lemma_value_dominates(s, scale);
}

/// The fragment's value is at least the whole run's value.
proof fn lemma_value_dominates(s: Seq<char>, scale: nat)
    requires
        scale >= 1,
    ensures
        fragment_value(s, scale) >= digits_val(whole_run(s)),
{
    let dv = digits_val(whole_run(s));
    assert(dv * scale >= dv * 1) by (nonlinear_arith)
        requires
            scale >= 1,
            dv >= 0,
    ;
}

/// When the scaled whole run alone exceeds the width, the fragment's
/// value does too.
proof fn lemma_value_exceeds(s: Seq<char>, scale: nat)
    requires
        digits_val(whole_run(s)) * scale > u128::MAX,
    ensures
        fragment_value(s, scale) > u128::MAX,
{
}

} // verus!
