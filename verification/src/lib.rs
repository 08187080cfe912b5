//! A fixed-point token amount: an exact 128-bit count of atto-UNC, the
//! smallest indivisible unit of the UNC currency.
//!
//! The crate offers scaled constructors and accessors, overflow-aware
//! checked and saturating arithmetic, a decimal-text parser that turns a
//! number plus unit suffix into an exact count, and a formatter that
//! renders a count as a rounded-up decimal string.

pub mod codec;
pub mod digits;
pub mod display;
pub mod error;
pub mod parse;
pub mod unit;

pub use error::DecimalNumberParsingError;
pub use error::UncTokenError;

use vstd::prelude::*;

verus! {

/// One whole UNC, counted in atto-UNC (10^24).
pub const ONE_UNC: u128 = 1_000_000_000_000_000_000_000_000;

/// One milli-UNC, counted in atto-UNC (10^21).
pub const ONE_MILLIUNC: u128 = 1_000_000_000_000_000_000_000;

/// An amount of UNC tokens, held as a count of atto-UNC.
///
/// The count is always exact: constructors and arithmetic never round.
/// The view of a token is its raw atto-UNC count.
#[derive(Debug, Clone, Copy, PartialEq, Eq, Structural, Hash, PartialOrd, Ord)]
pub struct UncToken {
    inner: u128,
}

impl View for UncToken {
    type V = u128;

    closed spec fn view(&self) -> u128 {
        self.inner
    }
}

impl UncToken {
    /// Wraps a raw count of atto-UNC.
    pub fn from_attounc(inner: u128) -> (r: Self)
        ensures
            r@ == inner,
    {
        Self { inner }
    }

    /// Converts a count of milli-UNC to the equivalent count of atto-UNC.
    /// The caller must ensure the scaled count fits the 128-bit width;
    /// `checked_from_milliunc` decides that at run time instead.
    pub fn from_milliunc(inner: u128) -> (r: Self)
        requires
            inner * ONE_MILLIUNC <= u128::MAX,
        ensures
            r@ == inner * ONE_MILLIUNC,
    {
        Self { inner: inner * ONE_MILLIUNC }
    }

    /// Converts a count of whole UNC to the equivalent count of atto-UNC.
    /// The caller must ensure the scaled count fits the 128-bit width;
    /// `checked_from_unc` decides that at run time instead.
    pub fn from_unc(inner: u128) -> (r: Self)
        requires
            inner * ONE_UNC <= u128::MAX,
        ensures
            r@ == inner * ONE_UNC,
    {
        Self { inner: inner * ONE_UNC }
    }

    /// Converts a count of milli-UNC, reporting an overflowing scale-up
    /// as `None` instead of demanding the bound from the caller.
    pub fn checked_from_milliunc(inner: u128) -> (r: Option<Self>)
        ensures
            match r {
                Some(t) => inner * ONE_MILLIUNC <= u128::MAX && t@ == inner * ONE_MILLIUNC,
                None => inner * ONE_MILLIUNC > u128::MAX,
            },
    {
        match inner.checked_mul(ONE_MILLIUNC) {
            Some(v) => Some(Self { inner: v }),
            None => None,
        }
    }

    /// Converts a count of whole UNC, reporting an overflowing scale-up
    /// as `None` instead of demanding the bound from the caller.
    pub fn checked_from_unc(inner: u128) -> (r: Option<Self>)
        ensures
            match r {
                Some(t) => inner * ONE_UNC <= u128::MAX && t@ == inner * ONE_UNC,
                None => inner * ONE_UNC > u128::MAX,
            },
    {
        match inner.checked_mul(ONE_UNC) {
            Some(v) => Some(Self { inner: v }),
            None => None,
        }
    }

    /// The count converted down to whole UNC by floor division.
    pub fn as_unc(&self) -> (r: u128)
        ensures
            r == self@ / ONE_UNC,
    {
        self.inner / ONE_UNC
    }

    /// The count converted down to milli-UNC by floor division.
    pub fn as_milliunc(&self) -> (r: u128)
        ensures
            r == self@ / ONE_MILLIUNC,
    {
        self.inner / ONE_MILLIUNC
    }

    /// The raw count of atto-UNC.
    pub fn as_attounc(&self) -> (r: u128)
        ensures
            r == self@,
    {
        self.inner
    }

    /// Whether the amount is exactly zero.
    pub fn is_zero(&self) -> (r: bool)
        ensures
            r == (self@ == 0),
    {
        self.inner == 0
    }

    /// Checked addition of two amounts: the exact sum when it fits the
    /// 128-bit width, `None` exactly when it does not.
    pub fn checked_add(self, rhs: Self) -> (r: Option<Self>)
        ensures
            match r {
                Some(t) => self@ + rhs@ <= u128::MAX && t@ == self@ + rhs@,
                None => self@ + rhs@ > u128::MAX,
            },
    {
        match self.inner.checked_add(rhs.inner) {
            Some(v) => Some(Self { inner: v }),
            None => None,
        }
    }

    /// Checked subtraction of two amounts: the exact difference when the
    /// subtrahend does not exceed the amount, `None` exactly otherwise.
    pub fn checked_sub(self, rhs: Self) -> (r: Option<Self>)
        ensures
            match r {
                Some(t) => rhs@ <= self@ && t@ == self@ - rhs@,
                None => rhs@ > self@,
            },
    {
        match self.inner.checked_sub(rhs.inner) {
            Some(v) => Some(Self { inner: v }),
            None => None,
        }
    }

    /// Checked multiplication by a plain scalar: the exact product when it
    /// fits the 128-bit width, `None` exactly when it does not.
    pub fn checked_mul(self, rhs: u128) -> (r: Option<Self>)
        ensures
            match r {
                Some(t) => self@ * rhs <= u128::MAX && t@ == self@ * rhs,
                None => self@ * rhs > u128::MAX,
            },
    {
        match self.inner.checked_mul(rhs) {
            Some(v) => Some(Self { inner: v }),
            None => None,
        }
    }

    /// Checked division by a plain scalar: the floor quotient, `None`
    /// exactly when the divisor is zero.
    pub fn checked_div(self, rhs: u128) -> (r: Option<Self>)
        ensures
            match r {
                Some(t) => rhs != 0 && t@ == self@ / rhs,
                None => rhs == 0,
            },
    {
        match self.inner.checked_div(rhs) {
            Some(v) => Some(Self { inner: v }),
            None => None,
        }
    }

    /// Saturating addition: the exact sum, clamped to the maximum count.
    pub fn saturating_add(self, rhs: Self) -> (r: Self)
        ensures
            r@ == if self@ + rhs@ > u128::MAX {
                u128::MAX as int
            } else {
                self@ + rhs@
            },
    {
        Self { inner: self.inner.saturating_add(rhs.inner) }
    }

    /// Saturating subtraction: the exact difference, clamped to zero.
    pub fn saturating_sub(self, rhs: Self) -> (r: Self)
        ensures
            r@ == if rhs@ > self@ {
                0int
            } else {
                self@ - rhs@
            },
    {
        Self { inner: self.inner.saturating_sub(rhs.inner) }
    }

    /// Saturating multiplication by a plain scalar: the exact product,
    /// clamped to the maximum count.
    pub fn saturating_mul(self, rhs: u128) -> (r: Self)
        ensures
            r@ == if self@ * rhs > u128::MAX {
                u128::MAX as int
            } else {
                self@ * rhs
            },
    {
        match self.inner.checked_mul(rhs) {
            Some(v) => Self { inner: v },
            None => Self { inner: u128::MAX },
        }
    }

    /// Saturating division by a plain scalar. Dividing by zero yields the
    /// zero amount: a deliberate policy, unlike `checked_div`'s `None`.
    pub fn saturating_div(self, rhs: u128) -> (r: Self)
        ensures
            r@ == if rhs == 0 {
                0int
            } else {
                self@ as int / rhs as int
            },
    {
        if rhs == 0 {
            return Self { inner: 0 };
        }
        Self { inner: self.inner / rhs }
    }
}

impl Default for UncToken {
    /// The default amount is the zero count.
    fn default() -> (r: Self)
        ensures
            r@ == 0,
    {
        Self { inner: 0 }
    }
}

} // verus!
