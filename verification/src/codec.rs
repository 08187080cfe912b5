//! The serialization collaborator contracts: the raw count encoded as a
//! base-10 digit string and as exactly sixteen little-endian bytes, each
//! with its decoder. Serialization adapters consume these pairs together
//! with the raw-count accessors.

use vstd::prelude::*;

use crate::digits::{
    all_digits, append_dec, dec_digits, digits_val, is_dec_digit, lemma_digits_val_prefix,
};
use crate::UncToken;

verus! {

/// 256 raised to `e`.
pub open spec fn pow256(e: nat) -> nat
    decreases e,
{
    if e == 0 {
        1
    } else {
        256 * pow256((e - 1) as nat)
    }
}

/// The sixteen little-endian bytes of `v`: byte `i` is the `i`-th
/// base-256 digit.
pub open spec fn le_bytes(v: u128) -> Seq<u8> {
    Seq::new(16, |i: int| (v as nat / pow256(i as nat) % 256) as u8)
}

/// The value little-endian bytes denote.
pub open spec fn le_val(bs: Seq<u8>) -> nat
    decreases bs.len(),
{
    if bs.len() == 0 {
        0
    } else {
        bs[0] as nat + 256 * le_val(bs.skip(1))
    }
}

proof fn lemma_pow256_pos(e: nat)
    ensures
        pow256(e) >= 1,
    decreases e,
{
    if e > 0 {
        lemma_pow256_pos((e - 1) as nat);
    }
}

proof fn lemma_pow256_increases(a: nat, b: nat)
    requires
        a <= b,
    ensures
        pow256(a) <= pow256(b),
    decreases b,
{
    if a < b {
        lemma_pow256_increases(a, (b - 1) as nat);
        lemma_pow256_pos((b - 1) as nat);
    }
}

/// Sixteen base-256 digits cover exactly the 128-bit range.
proof fn lemma_pow256_16()
    ensures
        pow256(16) == u128::MAX + 1,
{
    reveal_with_fuel(pow256, 17);
}

/// Little-endian bytes denote less than 256 to their count.
proof fn lemma_le_val_bound(bs: Seq<u8>)
    ensures
        le_val(bs) < pow256(bs.len()),
    decreases bs.len(),
{
    if bs.len() > 0 {
        let t = bs.skip(1);
        lemma_le_val_bound(t);
        assert(256 * le_val(t) <= 256 * (pow256(t.len()) - 1)) by (nonlinear_arith)
            requires
                le_val(t) <= pow256(t.len()) - 1,
        ;
        assert(pow256(bs.len()) == 256 * pow256(t.len()));
    }
}

/// The digits of `v` below width `w` denote `v` modulo 256 to the `w`.
proof fn lemma_le_val_digits(v: nat, w: nat)
    ensures
        le_val(Seq::new(w, |i: int| (v / pow256(i as nat) % 256) as u8)) == v % pow256(w),
    decreases w,
{
    let bs = Seq::new(w, |i: int| (v / pow256(i as nat) % 256) as u8);
    if w == 0 {
        assert(v % 1 == 0) by {
            vstd::arithmetic::div_mod::lemma_mod_self_0(1int);
            vstd::arithmetic::div_mod::lemma_small_mod(0, 1);
            assert(v % 1 == 0) by (nonlinear_arith);
        };
    } else {
        let v1 = v / 256;
        let w1 = (w - 1) as nat;
        let t = Seq::new(w1, |i: int| (v1 / pow256(i as nat) % 256) as u8);
        lemma_le_val_digits(v1, w1);
        assert forall|i: int| 0 <= i < w1 implies bs.skip(1)[i] == t[i] by {
            lemma_pow256_pos(i as nat);
            vstd::arithmetic::div_mod::lemma_div_denominator(
                v as int,
                256,
                pow256(i as nat) as int,
            );
            assert(pow256((i + 1) as nat) == 256 * pow256(i as nat));
            assert(v / pow256((i + 1) as nat) == v1 / pow256(i as nat));
        };
        assert(bs.skip(1) =~= t);
        assert(pow256(0) == 1);
        vstd::arithmetic::div_mod::lemma_div_basics(v as int);
        assert(bs[0] == v % 256);
        assert(le_val(bs) == v % 256 + 256 * (v1 % pow256(w1)));
        lemma_pow256_pos(w1);
        vstd::arithmetic::div_mod::lemma_mod_breakdown(v as int, 256, pow256(w1) as int);
        assert(pow256(w) == 256 * pow256(w1));
    }
}

/// Decoding inverts encoding: the sixteen little-endian bytes of a count
/// denote that count.
pub proof fn lemma_le_bytes_roundtrip(v: u128)
    ensures
        le_val(le_bytes(v)) == v,
{
    lemma_le_val_digits(v as nat, 16);
    lemma_pow256_16();
    vstd::arithmetic::div_mod::lemma_small_mod(v as nat, pow256(16));
}

impl UncToken {
    /// The raw count as its canonical base-10 digit string.
    pub fn to_decimal_text(&self) -> (r: String)
        ensures
            r@ == dec_digits(self@ as nat),
    {
        let mut r = String::new();
        append_dec(&mut r, self.inner);
        proof {
            assert(r@ =~= dec_digits(self@ as nat));
        }
        r
    }

    /// Decodes a base-10 digit string back into an amount: `Some` exactly
    /// when the text is one or more decimal digits denoting a count that
    /// fits the 128-bit width.
    pub fn from_decimal_text(s: &str) -> (r: Option<UncToken>)
        ensures
            match r {
                Some(t) => s@.len() > 0 && all_digits(s@) && digits_val(s@) <= u128::MAX && t@
                    == digits_val(s@),
                None => !(s@.len() > 0 && all_digits(s@) && digits_val(s@) <= u128::MAX),
            },
    {
        let n = s.unicode_len();
        if n == 0 {
            return None;
        }
        let mut acc: u128 = 0;
        let mut i: usize = 0;
        proof {
            assert(s@.take(0) =~= Seq::<char>::empty());
        }
        while i < n
            invariant
                n == s@.len(),
                i <= n,
                forall|j: int| 0 <= j < i ==> is_dec_digit(#[trigger] s@[j]),
                acc as nat == digits_val(s@.take(i as int)),
            decreases n - i,
        {
            let c = s.get_char(i);
            let u = c as u32;
            if !(48 <= u && u <= 57) {
                proof {
                    assert(!is_dec_digit(s@[i as int]));
                }
                return None;
            }
            let d = (u - 48) as u128;
            proof {
                assert(s@.take(i as int + 1).drop_last() =~= s@.take(i as int));
                assert(s@.take(i as int + 1).last() == s@[i as int]);
                assert(digits_val(s@.take(i as int + 1)) == acc as nat * 10 + d);
            }
            let a10 = match acc.checked_mul(10) {
                Some(x) => x,
                None => {
                    proof {
                        lemma_digits_val_prefix(s@, i as int + 1);
                    }
                    return None;
                },
            };
            acc = match a10.checked_add(d) {
                Some(x) => x,
                None => {
                    proof {
                        lemma_digits_val_prefix(s@, i as int + 1);
                    }
                    return None;
                },
            };
            i += 1;
        }
        proof {
            assert(s@.take(n as int) =~= s@);
        }
        Some(UncToken { inner: acc })
    }

    /// The raw count as exactly sixteen little-endian bytes.
    pub fn to_le_bytes(&self) -> (r: Vec<u8>)
        ensures
            r@ == le_bytes(self@),
    {
        let mut v = self.inner;
        let mut r: Vec<u8> = Vec::new();
        let mut i: usize = 0;
        proof {
            assert(pow256(0) == 1);
            vstd::arithmetic::div_mod::lemma_div_basics(self@ as int);
        }
        while i < 16
            invariant
                i <= 16,
                r@.len() == i,
                v as nat == self@ as nat / pow256(i as nat),
                forall|j: int| 0 <= j < i ==> r@[j] == le_bytes(self@)[j],
            decreases 16 - i,
        {
            r.push((v % 256) as u8);
            proof {
                lemma_pow256_pos(i as nat);
                vstd::arithmetic::div_mod::lemma_div_denominator(
                    self@ as int,
                    pow256(i as nat) as int,
                    256,
                );
                assert(pow256((i + 1) as nat) == 256 * pow256(i as nat));
                assert((pow256(i as nat) * 256) as int == (256 * pow256(i as nat)) as int)
                    by (nonlinear_arith);
            }
            v = v / 256;
            i += 1;
        }
        proof {
            assert(r@ =~= le_bytes(self@));
        }
        r
    }

    /// Decodes exactly sixteen little-endian bytes back into an amount;
    /// `None` exactly when the byte count is not sixteen.
    pub fn from_le_bytes(bytes: &[u8]) -> (r: Option<UncToken>)
        ensures
            match r {
                Some(t) => bytes@.len() == 16 && t@ == le_val(bytes@),
                None => bytes@.len() != 16,
            },
    {
        if bytes.len() != 16 {
            return None;
        }
        let mut acc: u128 = 0;
        let mut i: usize = 16;
        proof {
            assert(bytes@.skip(16) =~= Seq::<u8>::empty());
        }
        while i > 0
            invariant
                bytes@.len() == 16,
                i <= 16,
                acc as nat == le_val(bytes@.skip(i as int)),
            decreases i,
        {
            let b = *vstd::slice::slice_index_get(bytes, i - 1);
            proof {
                lemma_le_val_bound(bytes@.skip(i as int));
                lemma_pow256_increases((16 - i) as nat, 15);
                lemma_pow256_16();
                assert(pow256(15) * 256 == pow256(16)) by (nonlinear_arith)
                    requires
                        pow256(16) == 256 * pow256(15),
                ;
                assert(acc * 256 <= (pow256(15) - 1) * 256) by (nonlinear_arith)
                    requires
                        acc <= pow256(15) - 1,
                ;
                assert(bytes@.skip(i - 1)[0] == bytes@[i - 1]);
                assert(bytes@.skip(i - 1).skip(1) =~= bytes@.skip(i as int));
            }
            acc = acc * 256 + (b as u128);
            proof {
                assert(le_val(bytes@.skip(i - 1)) == bytes@[i - 1] + 256 * le_val(
                    bytes@.skip(i as int),
                ));
                assert(acc as nat == le_val(bytes@.skip(i - 1))) by (nonlinear_arith)
                    requires
                        acc as nat == le_val(bytes@.skip(i as int)) * 256 + bytes@[i - 1],
                        le_val(bytes@.skip(i - 1)) == bytes@[i - 1] + 256 * le_val(
                            bytes@.skip(i as int),
                        ),
                ;
            }
            i -= 1;
        }
        proof {
            assert(bytes@.skip(0) =~= bytes@);
        }
        Some(UncToken { inner: acc })
    }
}

} // verus!
