//! The decimal-digit model: powers of ten, the value of a run of digit
//! characters, the canonical decimal rendering of a number, and the
//! executable rendering that is proved to match it.

use vstd::prelude::*;

verus! {

/// 10 raised to `e`.
pub open spec fn pow10(e: nat) -> nat
    decreases e,
{
    if e == 0 {
        1
    } else {
        10 * pow10((e - 1) as nat)
    }
}

/// Whether `n` is a power of ten.
pub open spec fn is_pow10(n: nat) -> bool {
    exists|e: nat| n == pow10(e)
}

/// Whether `c` is an ASCII decimal digit.
pub open spec fn is_dec_digit(c: char) -> bool {
    48 <= c as u32 <= 57
}

/// The numeric value of a digit character.
pub open spec fn digit_val(c: char) -> nat {
    (c as u32 - 48) as nat
}

/// The digit character for a value below ten.
pub open spec fn digit_char(d: nat) -> char {
    if d == 0 {
        '0'
    } else if d == 1 {
        '1'
    } else if d == 2 {
        '2'
    } else if d == 3 {
        '3'
    } else if d == 4 {
        '4'
    } else if d == 5 {
        '5'
    } else if d == 6 {
        '6'
    } else if d == 7 {
        '7'
    } else if d == 8 {
        '8'
    } else {
        '9'
    }
}

/// Whether every character of `s` is an ASCII decimal digit.
pub open spec fn all_digits(s: Seq<char>) -> bool {
    forall|i: int| 0 <= i < s.len() ==> is_dec_digit(#[trigger] s[i])
}

/// The numeric value of a run of digit characters, most significant first.
pub open spec fn digits_val(s: Seq<char>) -> nat
    decreases s.len(),
{
    if s.len() == 0 {
        0
    } else {
        digits_val(s.drop_last()) * 10 + digit_val(s.last())
    }
}

/// The canonical decimal rendering of `n`: no leading zero except for the
/// single digit of zero itself.
pub open spec fn dec_digits(n: nat) -> Seq<char>
    decreases n,
{
    if n < 10 {
        seq![digit_char(n)]
    } else {
        dec_digits(n / 10) + seq![digit_char(n % 10)]
    }
}

/// The three-digit zero-padded rendering of a value below one thousand.
pub open spec fn pad3(n: nat) -> Seq<char> {
    seq![digit_char(n / 100 % 10), digit_char(n / 10 % 10), digit_char(n % 10)]
}

/// The two-digit zero-padded rendering of a value below one hundred.
pub open spec fn pad2(n: nat) -> Seq<char> {
    seq![digit_char(n / 10 % 10), digit_char(n % 10)]
}

pub proof fn lemma_pow10_pos(e: nat)
    ensures
        pow10(e) >= 1,
    decreases e,
{
    if e > 0 {
        lemma_pow10_pos((e - 1) as nat);
    }
}

pub proof fn lemma_pow10_adds(a: nat, b: nat)
    ensures
        pow10(a + b) == pow10(a) * pow10(b),
    decreases a,
{
    if a == 0 {
        assert(pow10(a) == 1);
        assert(a + b == b);
        assert(1 * pow10(b) == pow10(b)) by (nonlinear_arith);
    } else {
        let a1 = (a - 1) as nat;
        lemma_pow10_adds(a1, b);
        assert((a + b - 1) as nat == a1 + b);
        assert(pow10(a + b) == 10 * pow10(a1 + b));
        assert(pow10(a) == 10 * pow10(a1));
        assert(10 * (pow10(a1) * pow10(b)) == (10 * pow10(a1)) * pow10(b)) by (nonlinear_arith);
        assert(pow10(a + b) == pow10(a) * pow10(b));
    }
}

pub proof fn lemma_pow10_increases(a: nat, b: nat)
    requires
        a <= b,
    ensures
        pow10(a) <= pow10(b),
    decreases b,
{
    if a < b {
        lemma_pow10_increases(a, (b - 1) as nat);
        lemma_pow10_pos((b - 1) as nat);
    }
}

pub proof fn lemma_pow10_strictly_increases(a: nat, b: nat)
    requires
        a < b,
    ensures
        pow10(a) < pow10(b),
    decreases b,
{
    lemma_pow10_increases(a, (b - 1) as nat);
    lemma_pow10_pos((b - 1) as nat);
}

/// Dividing a larger power of ten by a smaller one is exact.
pub proof fn lemma_pow10_div(a: nat, b: nat)
    requires
        a <= b,
    ensures
        pow10(b) / pow10(a) == pow10((b - a) as nat),
        pow10(b) % pow10(a) == 0,
    decreases a,
{
    lemma_pow10_adds(a, (b - a) as nat);
    lemma_pow10_pos(a);
    lemma_pow10_pos((b - a) as nat);
    let p = pow10(a);
    let q = pow10((b - a) as nat);
    assert(pow10(b) == p * q);
    vstd::arithmetic::div_mod::lemma_div_multiples_vanish(q as int, p as int);
    assert((p * q) as int / p as int == q as int);
    vstd::arithmetic::div_mod::lemma_mod_multiples_basic(q as int, p as int);
    assert((q * p) as int % p as int == 0);
    assert(p * q == q * p) by (nonlinear_arith);
}

/// A run of digits is worth less than ten to its length.
pub proof fn lemma_digits_val_bound(s: Seq<char>)
    requires
        all_digits(s),
    ensures
        digits_val(s) < pow10(s.len()),
    decreases s.len(),
{
    if s.len() == 0 {
    } else {
        let p = s.drop_last();
        assert(all_digits(p));
        lemma_digits_val_bound(p);
        assert(digits_val(p) <= pow10(p.len()) - 1);
        assert(digits_val(p) * 10 <= (pow10(p.len()) - 1) * 10) by (nonlinear_arith)
            requires
                digits_val(p) <= pow10(p.len()) - 1,
        ;
        assert(pow10(s.len()) == 10 * pow10(p.len()));
    }
}

/// The value of a prefix of a digit run never exceeds the whole run's value.
pub proof fn lemma_digits_val_prefix(s: Seq<char>, k: int)
    requires
        0 <= k <= s.len(),
    ensures
        digits_val(s.take(k)) <= digits_val(s),
    decreases s.len() - k,
{
    if k < s.len() {
        lemma_digits_val_prefix(s, k + 1);
        assert(s.take(k + 1).drop_last() =~= s.take(k));
        assert(digits_val(s.take(k + 1)) == digits_val(s.take(k)) * 10 + digit_val(
            s.take(k + 1).last(),
        ));
        assert(digits_val(s.take(k)) <= digits_val(s.take(k)) * 10) by (nonlinear_arith);
    } else {
        assert(s.take(k) =~= s);
    }
}

/// The whole-UNC scale is ten to the twenty-fourth.
pub proof fn lemma_pow10_24()
    ensures
        pow10(24) == 1_000_000_000_000_000_000_000_000,
{
    reveal_with_fuel(pow10, 25);
}

/// Appends the digit character for `d` to `s`.
pub(crate) fn push_digit(s: &mut String, d: u8)
    requires
        d < 10,
    ensures
        final(s)@ == old(s)@ + seq![digit_char(d as nat)],
{
    let t: &str = match d {
        0 => "0",
        1 => "1",
        2 => "2",
        3 => "3",
        4 => "4",
        5 => "5",
        6 => "6",
        7 => "7",
        8 => "8",
        _ => "9",
    };
    proof {
        reveal_strlit("0");
        reveal_strlit("1");
        reveal_strlit("2");
        reveal_strlit("3");
        reveal_strlit("4");
        reveal_strlit("5");
        reveal_strlit("6");
        reveal_strlit("7");
        reveal_strlit("8");
        reveal_strlit("9");
        assert(t@ =~= seq![digit_char(d as nat)]);
    }
    s.append(t);
}

/// Appends the canonical decimal rendering of `n` to `s`.
pub(crate) fn append_dec(s: &mut String, n: u128)
    ensures
        final(s)@ == old(s)@ + dec_digits(n as nat),
    decreases n,
{
    if n >= 10 {
        append_dec(s, n / 10);
    }
    push_digit(s, (n % 10) as u8);
    proof {
        if n < 10 {
            assert(dec_digits(n as nat) =~= seq![digit_char(n as nat)]);
            assert(final(s)@ =~= old(s)@ + dec_digits(n as nat));
        } else {
            assert(dec_digits(n as nat) == dec_digits(n as nat / 10) + seq![
                digit_char(n as nat % 10),
            ]);
            assert(final(s)@ =~= old(s)@ + dec_digits(n as nat));
        }
    }
}

/// Appends the three-digit zero-padded rendering of `n` to `s`.
pub(crate) fn append_pad3(s: &mut String, n: u128)
    requires
        n < 1000,
    ensures
        final(s)@ == old(s)@ + pad3(n as nat),
{
    push_digit(s, (n / 100) as u8);
    push_digit(s, (n / 10 % 10) as u8);
    push_digit(s, (n % 10) as u8);
    proof {
        assert(final(s)@ =~= old(s)@ + pad3(n as nat));
    }
}

/// Appends the two-digit zero-padded rendering of `n` to `s`.
pub(crate) fn append_pad2(s: &mut String, n: u128)
    requires
        n < 100,
    ensures
        final(s)@ == old(s)@ + pad2(n as nat),
{
    push_digit(s, (n / 10) as u8);
    push_digit(s, (n % 10) as u8);
    proof {
        assert(final(s)@ =~= old(s)@ + pad2(n as nat));
    }
}

} // verus!
