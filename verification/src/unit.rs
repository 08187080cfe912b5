//! The unit resolver: splits token text into a numeric fragment and a
//! unit suffix, recognizes the suffix case-insensitively, and hands the
//! fragment with the suffix's scale to the decimal parser.

use vstd::prelude::*;

use crate::digits::{is_pow10, pow10};
use crate::error::UncTokenError;
use crate::parse::{fragment_value, parse_decimal_number, parse_err_matches, parse_ok};
use crate::{UncToken, ONE_UNC};

verus! {

/// Whether `c` is ASCII whitespace: space, tab, line feed, vertical tab,
/// form feed or carriage return.
pub open spec fn is_space_char(c: char) -> bool {
    c == ' ' || c == '\t' || c == '\n' || c == '\u{b}' || c == '\u{c}' || c == '\r'
}

/// Whether `c` is an ASCII letter.
pub open spec fn is_ascii_alpha(c: char) -> bool {
    (65 <= c as u32 <= 90) || (97 <= c as u32 <= 122)
}

/// `c` with an ASCII lowercase letter raised to its uppercase form.
pub open spec fn upper_char(c: char) -> char {
    if 97 <= c as u32 <= 122 {
        ((c as u32 - 32) as char)
    } else {
        c
    }
}

/// `s` with every ASCII lowercase letter raised to its uppercase form.
pub open spec fn upper_seq(s: Seq<char>) -> Seq<char> {
    Seq::new(s.len(), |i: int| upper_char(s[i]))
}

/// `s` without its leading whitespace.
pub open spec fn trim_front(s: Seq<char>) -> Seq<char>
    decreases s.len(),
{
    if s.len() > 0 && is_space_char(s[0]) {
        trim_front(s.skip(1))
    } else {
        s
    }
}

/// `s` without its trailing whitespace.
pub open spec fn trim_back(s: Seq<char>) -> Seq<char>
    decreases s.len(),
{
    if s.len() > 0 && is_space_char(s.last()) {
        trim_back(s.drop_last())
    } else {
        s
    }
}

/// `s` without leading and trailing whitespace.
pub open spec fn trimmed(s: Seq<char>) -> Seq<char> {
    trim_back(trim_front(s))
}

/// The index of the first ASCII letter in `s`, or -1 when there is none.
pub open spec fn alpha_index(s: Seq<char>) -> int
    decreases s.len(),
{
    if s.len() == 0 {
        -1
    } else if is_ascii_alpha(s[0]) {
        0
    } else {
        let r = alpha_index(s.skip(1));
        if r < 0 {
            -1
        } else {
            1 + r
        }
    }
}

/// The scale of an uppercase unit suffix: the atto-UNC aliases name the
/// smallest unit, the UNC aliases the whole unit; anything else is
/// unrecognized.
pub open spec fn unit_scale(u: Seq<char>) -> Option<u128> {
    if u == seq!['Y', 'N'] || u == seq!['Y', 'U', 'N', 'C'] || u == seq![
        'Y',
        'O',
        'C',
        'T',
        'O',
        'U',
        'N',
        'C',
    ] || u == seq!['Y', 'N', 'E', 'A', 'R'] {
        Some(1u128)
    } else if u == seq!['U', 'N', 'C'] || u == seq!['N'] || u == seq!['N', 'E', 'A', 'R'] {
        Some(ONE_UNC)
    } else {
        None
    }
}

/// The scale of the text's unit suffix: the trimmed text from its first
/// letter on, uppercased and looked up; `None` when there is no letter
/// or the suffix is unrecognized.
pub open spec fn resolved_scale(s: Seq<char>) -> Option<u128> {
    let t = trimmed(s);
    if alpha_index(t) < 0 {
        None
    } else {
        unit_scale(upper_seq(t.skip(alpha_index(t))))
    }
}

/// The numeric fragment of the text: the trimmed text up to its first
/// letter, without the whitespace before the letter.
pub open spec fn resolved_frag(s: Seq<char>) -> Seq<char> {
    let t = trimmed(s);
    trim_back(t.take(alpha_index(t)))
}

/// Locates `trim_front` from a scan: whitespace everywhere before `k`,
/// and none at `k` unless `k` is the length.
proof fn lemma_trim_front_at(s: Seq<char>, k: int)
    requires
        0 <= k <= s.len(),
        forall|j: int| 0 <= j < k ==> is_space_char(s[j]),
        k < s.len() ==> !is_space_char(s[k]),
    ensures
        trim_front(s) == s.skip(k),
    decreases k,
{
    if k == 0 {
        assert(s.skip(0) =~= s);
    } else {
        lemma_trim_front_at(s.skip(1), k - 1);
        assert(s.skip(1).skip(k - 1) =~= s.skip(k));
    }
}

/// Locates `trim_back` from a scan: whitespace everywhere from `k` on,
/// and none just before `k` unless `k` is zero.
proof fn lemma_trim_back_at(s: Seq<char>, k: int)
    requires
        0 <= k <= s.len(),
        forall|j: int| k <= j < s.len() ==> is_space_char(s[j]),
        k > 0 ==> !is_space_char(s[k - 1]),
    ensures
        trim_back(s) == s.take(k),
    decreases s.len(),
{
    if k == s.len() {
        assert(s.take(k) =~= s);
    } else {
        lemma_trim_back_at(s.drop_last(), k);
        assert(s.drop_last().take(k) =~= s.take(k));
    }
}

/// Locates `alpha_index` from a scan: no letter before `k`, and a letter
/// at `k` unless `k` is the length.
proof fn lemma_alpha_index_at(s: Seq<char>, k: int)
    requires
        0 <= k <= s.len(),
        forall|j: int| 0 <= j < k ==> !is_ascii_alpha(s[j]),
        k < s.len() ==> is_ascii_alpha(s[k]),
    ensures
        alpha_index(s) == if k < s.len() {
            k
        } else {
            -1
        },
    decreases s.len(),
{
    if s.len() == 0 {
    } else if is_ascii_alpha(s[0]) {
        assert(k == 0);
    } else {
        assert(k >= 1);
        lemma_alpha_index_at(s.skip(1), k - 1);
    }
}

/// Whether `c` is ASCII whitespace.
fn is_space(c: char) -> (b: bool)
    ensures
        b == is_space_char(c),
{
    c == ' ' || c == '\t' || c == '\n' || c == '\u{b}' || c == '\u{c}' || c == '\r'
}

/// Whether `c` is an ASCII letter.
fn is_alpha(c: char) -> (b: bool)
    ensures
        b == is_ascii_alpha(c),
{
    let u = c as u32;
    (65 <= u && u <= 90) || (97 <= u && u <= 122)
}

/// Whether the characters of `s` between `from` and `to`, uppercased,
/// spell exactly `lit`.
fn unit_matches(s: &str, from: usize, to: usize, lit: &str) -> (b: bool)
    requires
        from <= to <= s@.len(),
    ensures
        b == (upper_seq(s@.subrange(from as int, to as int)) == lit@),
{
    let ghost sub = s@.subrange(from as int, to as int);
    let llen = lit.unicode_len();
    if to - from != llen {
        proof {
            assert(upper_seq(sub).len() == to - from);
        }
        return false;
    }
    let mut i: usize = 0;
    while i < llen
        invariant
            i <= llen,
            llen == lit@.len(),
            to - from == llen,
            to <= s@.len(),
            sub == s@.subrange(from as int, to as int),
            forall|j: int| 0 <= j < i ==> upper_char(sub[j]) == lit@[j],
        decreases llen - i,
    {
        let c = s.get_char(from + i);
        let l = lit.get_char(i);
        let cu = c as u32;
        let cup = if 97 <= cu && cu <= 122 {
            cu - 32
        } else {
            cu
        };
        if cup != l as u32 {
            proof {
                assert(sub[i as int] == s@[from + i]);
                assert(upper_char(sub[i as int]) as u32 == cup);
                assert(upper_seq(sub)[i as int] != lit@[i as int]);
            }
            return false;
        }
        proof {
            assert(sub[i as int] == s@[from + i]);
            assert(upper_char(sub[i as int]) as u32 == cup);
            assert(upper_char(sub[i as int]) == l);
        }
        i += 1;
    }
    proof {
        assert(upper_seq(sub) =~= lit@);
    }
    true
}

impl UncToken {
    /// Parses token text: leading and trailing whitespace is ignored, the
    /// text splits at its first letter into a numeric fragment and a unit
    /// suffix, the suffix picks the scale case-insensitively, and the
    /// fragment is parsed at that scale. Fails with `InvalidTokenUnit`
    /// when there is no letter or the suffix is unrecognized, and with
    /// `InvalidTokensAmount` when the fragment is rejected.
    pub fn from_str(s: &str) -> (r: Result<UncToken, UncTokenError>)
        ensures
            match r {
                Ok(tok) => resolved_scale(s@) is Some && parse_ok(
                    resolved_frag(s@),
                    resolved_scale(s@)->0 as nat,
                ) && tok@ == fragment_value(resolved_frag(s@), resolved_scale(s@)->0 as nat),
                Err(e) => match e {
                    UncTokenError::InvalidTokenUnit(u) => u@ == s@ && resolved_scale(s@) is None,
                    UncTokenError::InvalidTokensAmount(pe) => resolved_scale(s@) is Some
                        && !parse_ok(resolved_frag(s@), resolved_scale(s@)->0 as nat)
                        && parse_err_matches(
                        &pe,
                        resolved_frag(s@),
                        resolved_scale(s@)->0 as nat,
                    ),
                },
            },
    {
        let n = s.unicode_len();
        // Trim: the first and last non-whitespace positions.
        let mut lo: usize = 0;
        while lo < n
            invariant
                n == s@.len(),
                lo <= n,
                forall|j: int| 0 <= j < lo ==> is_space_char(#[trigger] s@[j]),
            ensures
                lo <= n,
                forall|j: int| 0 <= j < lo ==> is_space_char(#[trigger] s@[j]),
                lo == n || !is_space_char(s@[lo as int]),
            decreases n - lo,
        {
            if !is_space(s.get_char(lo)) {
                break ;
            }
            lo += 1;
        }
        let mut hi: usize = n;
        while hi > lo
            invariant
                n == s@.len(),
                lo <= hi <= n,
                forall|j: int| hi <= j < n ==> is_space_char(#[trigger] s@[j]),
            ensures
                lo <= hi <= n,
                forall|j: int| hi <= j < n ==> is_space_char(#[trigger] s@[j]),
                hi == lo || !is_space_char(s@[hi - 1]),
            decreases hi,
        {
            if !is_space(s.get_char(hi - 1)) {
                break ;
            }
            hi -= 1;
        }
        let ghost t = trimmed(s@);
        proof {
            lemma_trim_front_at(s@, lo as int);
            if lo == n {
                assert(hi == lo);
            }
            lemma_trim_back_at(s@.skip(lo as int), hi - lo);
            assert(t =~= s@.subrange(lo as int, hi as int));
        }
        // The first letter starts the unit suffix.
        let mut a: usize = lo;
        while a < hi
            invariant
                n == s@.len(),
                lo <= a <= hi <= n,
                forall|j: int| lo <= j < a ==> !is_ascii_alpha(#[trigger] s@[j]),
            ensures
                lo <= a <= hi <= n,
                forall|j: int| lo <= j < a ==> !is_ascii_alpha(#[trigger] s@[j]),
                a == hi || is_ascii_alpha(s@[a as int]),
            decreases hi - a,
        {
            if is_alpha(s.get_char(a)) {
                break ;
            }
            a += 1;
        }
        proof {
            lemma_alpha_index_at(t, a - lo);
        }
        if a == hi {
            proof {
                assert(alpha_index(t) == -1);
            }
            return Err(UncTokenError::InvalidTokenUnit(s.to_owned()));
        }
        proof {
            assert(alpha_index(t) == a - lo);
            assert(t.skip(a - lo) =~= s@.subrange(a as int, hi as int));
        }
        // The fragment ends where the whitespace before the letter starts.
        let mut fe: usize = a;
        while fe > lo
            invariant
                n == s@.len(),
                a <= n,
                lo <= fe <= a,
                forall|j: int| fe <= j < a ==> is_space_char(#[trigger] s@[j]),
            ensures
                lo <= fe <= a,
                forall|j: int| fe <= j < a ==> is_space_char(#[trigger] s@[j]),
                fe == lo || !is_space_char(s@[fe - 1]),
            decreases fe,
        {
            if !is_space(s.get_char(fe - 1)) {
                break ;
            }
            fe -= 1;
        }
        proof {
            assert(t.take(a - lo) =~= s@.subrange(lo as int, a as int));
            lemma_trim_back_at(t.take(a - lo), fe - lo);
            assert(resolved_frag(s@) =~= s@.subrange(lo as int, fe as int));
        }
        // Recognize the suffix and pick its scale.
        let ghost suffix = upper_seq(t.skip(a - lo));
        proof {
            reveal_strlit("YN");
            reveal_strlit("YUNC");
            reveal_strlit("YOCTOUNC");
            reveal_strlit("YNEAR");
            reveal_strlit("UNC");
            reveal_strlit("N");
            reveal_strlit("NEAR");
            assert("YN"@ =~= seq!['Y', 'N']);
            assert("YUNC"@ =~= seq!['Y', 'U', 'N', 'C']);
            assert("YOCTOUNC"@ =~= seq!['Y', 'O', 'C', 'T', 'O', 'U', 'N', 'C']);
            assert("YNEAR"@ =~= seq!['Y', 'N', 'E', 'A', 'R']);
            assert("UNC"@ =~= seq!['U', 'N', 'C']);
            assert("N"@ =~= seq!['N']);
            assert("NEAR"@ =~= seq!['N', 'E', 'A', 'R']);
        }
        let scale: u128 = if unit_matches(s, a, hi, "YN") || unit_matches(s, a, hi, "YUNC")
            || unit_matches(s, a, hi, "YOCTOUNC") || unit_matches(s, a, hi, "YNEAR") {
            1
        } else if unit_matches(s, a, hi, "UNC") || unit_matches(s, a, hi, "N") || unit_matches(
            s,
            a,
            hi,
            "NEAR",
        ) {
            ONE_UNC
        } else {
            proof {
                assert(unit_scale(suffix) is None);
            }
            return Err(UncTokenError::InvalidTokenUnit(s.to_owned()));
        };
        proof {
            assert(resolved_scale(s@) == Some(scale));
            crate::digits::lemma_pow10_24();
            assert(pow10(0) == 1);
            assert(is_pow10(scale as nat));
        }
        let frag = s.substring_char(lo, fe);
        proof {
            assert(frag@ =~= resolved_frag(s@));
        }
        match parse_decimal_number(frag, scale) {
            Ok(v) => Ok(UncToken::from_attounc(v)),
            Err(e) => Err(UncTokenError::InvalidTokensAmount(e)),
        }
    }
}

} // verus!
