//! The formatter: renders an amount as a decimal string with the "UNC"
//! unit label, choosing among four rounding tiers and always rounding up,
//! so that the rendered text never understates the amount held.

use vstd::prelude::*;

use crate::digits::{append_dec, append_pad2, append_pad3, dec_digits, pad2, pad3};
use crate::{UncToken, ONE_MILLIUNC};

verus! {

/// The rounding tier an amount is rendered in: exactly zero; below one
/// milli-UNC; between one and 999 milli-UNC; at least one whole UNC.
pub open spec fn display_tier(v: u128) -> int {
    if v == 0 {
        1
    } else if v < ONE_MILLIUNC {
        2
    } else {
        if v <= 999 * ONE_MILLIUNC {
            3
        } else {
            4
        }
    }
}

/// The milli-UNC magnitude printed in the third tier: the count divided by
/// one milli-UNC, rounded up.
pub open spec fn milliunc_ceil(v: u128) -> nat {
    ((v + ONE_MILLIUNC - 1) as nat) / (ONE_MILLIUNC as nat)
}

/// The hundredths-of-UNC magnitude printed in the fourth tier: the count
/// divided by a hundredth of one UNC, rounded up, the bump saturating at
/// the 128-bit width.
pub open spec fn unc_hundredths_ceil(v: u128) -> nat {
    let bumped: nat = if v + 10 * ONE_MILLIUNC - 1 > u128::MAX {
        u128::MAX as nat
    } else {
        (v + 10 * ONE_MILLIUNC - 1) as nat
    };
    bumped / (ONE_MILLIUNC as nat) / 10
}

/// The rendered text for a raw atto-UNC count.
pub open spec fn spec_display(v: u128) -> Seq<char> {
    if v == 0 {
        seq!['0', ' ', 'U', 'N', 'C']
    } else if v < ONE_MILLIUNC {
        seq!['<', '0', '.', '0', '0', '1', ' ', 'U', 'N', 'C']
    } else {
        if v <= 999 * ONE_MILLIUNC {
            seq!['0', '.'] + pad3(milliunc_ceil(v)) + seq![' ', 'U', 'N', 'C']
        } else {
            let h = unc_hundredths_ceil(v);
            dec_digits(h / 100) + seq!['.'] + pad2(h % 100) + seq![' ', 'U', 'N', 'C']
        }
    }
}

impl UncToken {
    /// Renders the amount with the "UNC" unit label, rounding up to the
    /// tier's precision: "0 UNC" for zero, "<0.001 UNC" below one
    /// milli-UNC, three fractional digits up to 999 milli-UNC, and two
    /// fractional digits from one whole UNC on.
    pub fn display(&self) -> (r: String)
        ensures
            r@ == spec_display(self@),
    {
        let v = self.inner;
        if v == 0 {
            let r = String::from_str("0 UNC");
            proof {
                reveal_strlit("0 UNC");
                assert(r@ =~= spec_display(self@));
            }
            r
        } else if v < ONE_MILLIUNC {
            let r = String::from_str("<0.001 UNC");
            proof {
                reveal_strlit("<0.001 UNC");
                assert(r@ =~= spec_display(self@));
            }
            r
        } else if v <= 999 * ONE_MILLIUNC {
            let m = (v + (ONE_MILLIUNC - 1)) / ONE_MILLIUNC;
            proof {
                vstd::arithmetic::div_mod::lemma_div_is_ordered(
                    ONE_MILLIUNC as int,
                    v + ONE_MILLIUNC - 1,
                    ONE_MILLIUNC as int,
                );
                vstd::arithmetic::div_mod::lemma_div_is_ordered(
                    v + ONE_MILLIUNC - 1,
                    1000 * ONE_MILLIUNC - 1,
                    ONE_MILLIUNC as int,
                );
                assert(m == milliunc_ceil(v));
                assert(1 <= m <= 999);
            }
            let mut r = String::from_str("0.");
            append_pad3(&mut r, m);
            r.append(" UNC");
            proof {
                reveal_strlit("0.");
                reveal_strlit(" UNC");
                assert(r@ =~= spec_display(self@));
            }
            r
        } else {
            let h = v.saturating_add(10 * ONE_MILLIUNC - 1) / ONE_MILLIUNC / 10;
            proof {
                let bumped = if v + 10 * ONE_MILLIUNC - 1 > u128::MAX {
                    u128::MAX as int
                } else {
                    v + 10 * ONE_MILLIUNC - 1
                };
                assert(1009 * ONE_MILLIUNC <= bumped <= u128::MAX);
                vstd::arithmetic::div_mod::lemma_div_is_ordered(
                    1009 * ONE_MILLIUNC,
                    bumped,
                    ONE_MILLIUNC as int,
                );
                vstd::arithmetic::div_mod::lemma_div_is_ordered(
                    1009,
                    bumped / (ONE_MILLIUNC as int),
                    10,
                );
                assert(h == unc_hundredths_ceil(v));
                assert(h >= 100);
            }
            let mut r = String::new();
            append_dec(&mut r, h / 100);
            r.append(".");
            append_pad2(&mut r, h % 100);
            r.append(" UNC");
            proof {
                reveal_strlit(".");
                reveal_strlit(" UNC");
                assert(r@ =~= spec_display(self@));
            }
            r
        }
    }
}

/// Rendering is a pure function of the count: equal counts always render
/// as the same text, so rendering the same amount twice gives the same
/// string both times.
pub proof fn lemma_display_deterministic(a: u128, b: u128)
    requires
        a == b,
    ensures
        spec_display(a) == spec_display(b),
{
}

/// Rendering is monotonic within a tier: of two amounts rendered in the
/// same tier, the smaller never renders as a larger-looking text. In the
/// first two tiers the texts are the same literal; in the third and
/// fourth tiers the printed magnitude, which the text shows with a fixed
/// number of fractional digits, never decreases.
pub proof fn lemma_display_monotonic(a: u128, b: u128)
    requires
        a <= b,
        display_tier(a) == display_tier(b),
    ensures
        display_tier(a) <= 2 ==> spec_display(a) == spec_display(b),
        display_tier(a) == 3 ==> milliunc_ceil(a) <= milliunc_ceil(b),
        display_tier(a) == 4 ==> unc_hundredths_ceil(a) <= unc_hundredths_ceil(b),
{
    if display_tier(a) == 3 {
        vstd::arithmetic::div_mod::lemma_div_is_ordered(
            a + ONE_MILLIUNC - 1,
            b + ONE_MILLIUNC - 1,
            ONE_MILLIUNC as int,
        );
    }
    if display_tier(a) == 4 {
        let ba = if a + 10 * ONE_MILLIUNC - 1 > u128::MAX {
            u128::MAX as int
        } else {
            a + 10 * ONE_MILLIUNC - 1
        };
        let bb = if b + 10 * ONE_MILLIUNC - 1 > u128::MAX {
            u128::MAX as int
        } else {
            b + 10 * ONE_MILLIUNC - 1
        };
        vstd::arithmetic::div_mod::lemma_div_is_ordered(ba, bb, ONE_MILLIUNC as int);
        vstd::arithmetic::div_mod::lemma_div_is_ordered(
            ba / (ONE_MILLIUNC as int),
            bb / (ONE_MILLIUNC as int),
            10,
        );
    }
}

} // verus!
