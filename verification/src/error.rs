//! The error types: failures of the decimal parser, and failures of the
//! token-text entry point, each carrying the offending substring for
//! diagnostics, with a method that renders the diagnostic text.

use vstd::prelude::*;

verus! {

/// Why a numeric-text fragment could not be parsed into a count.
#[derive(Debug, Clone, Eq)]
pub enum DecimalNumberParsingError {
    /// The fragment is not digits with at most one inner decimal point.
    InvalidNumber(String),
    /// The whole part, once scaled, would overflow the 128-bit count.
    LongWhole(String),
    /// The fractional part has more digits than the scale supports.
    LongFractional(String),
}

/// Why token text could not be parsed into an amount.
#[derive(Debug, Clone, Eq)]
pub enum UncTokenError {
    /// The numeric fragment was rejected by the decimal parser.
    InvalidTokensAmount(DecimalNumberParsingError),
    /// The unit suffix is unrecognized or missing.
    InvalidTokenUnit(String),
}

/// Whether two parser errors are the same variant with the same text.
pub open spec fn spec_dec_err_eq(a: &DecimalNumberParsingError, b: &DecimalNumberParsingError) -> bool {
    match (a, b) {
        (
            DecimalNumberParsingError::InvalidNumber(x),
            DecimalNumberParsingError::InvalidNumber(y),
        ) => x@ == y@,
        (DecimalNumberParsingError::LongWhole(x), DecimalNumberParsingError::LongWhole(y)) => x@
            == y@,
        (
            DecimalNumberParsingError::LongFractional(x),
            DecimalNumberParsingError::LongFractional(y),
        ) => x@ == y@,
        _ => false,
    }
}

/// Whether two token errors are the same variant with the same contents.
pub open spec fn spec_token_err_eq(a: &UncTokenError, b: &UncTokenError) -> bool {
    match (a, b) {
        (UncTokenError::InvalidTokensAmount(x), UncTokenError::InvalidTokensAmount(y)) =>
            spec_dec_err_eq(x, y),
        (UncTokenError::InvalidTokenUnit(x), UncTokenError::InvalidTokenUnit(y)) => x@ == y@,
        _ => false,
    }
}

impl PartialEq for DecimalNumberParsingError {
    fn eq(&self, other: &Self) -> (r: bool) {
        match (self, other) {
            (
                DecimalNumberParsingError::InvalidNumber(x),
                DecimalNumberParsingError::InvalidNumber(y),
            ) => x.eq(y),
            (DecimalNumberParsingError::LongWhole(x), DecimalNumberParsingError::LongWhole(y)) => x
                .eq(y),
            (
                DecimalNumberParsingError::LongFractional(x),
                DecimalNumberParsingError::LongFractional(y),
            ) => x.eq(y),
            _ => false,
        }
    }
}

impl vstd::std_specs::cmp::PartialEqSpecImpl for DecimalNumberParsingError {
    open spec fn obeys_eq_spec() -> bool {
        true
    }

    open spec fn eq_spec(&self, other: &Self) -> bool {
        spec_dec_err_eq(self, other)
    }
}

impl PartialEq for UncTokenError {
    fn eq(&self, other: &Self) -> (r: bool) {
        match (self, other) {
            (UncTokenError::InvalidTokensAmount(x), UncTokenError::InvalidTokensAmount(y)) => x
                .eq(y),
            (UncTokenError::InvalidTokenUnit(x), UncTokenError::InvalidTokenUnit(y)) => x.eq(y),
            _ => false,
        }
    }
}

impl vstd::std_specs::cmp::PartialEqSpecImpl for UncTokenError {
    open spec fn obeys_eq_spec() -> bool {
        true
    }

    open spec fn eq_spec(&self, other: &Self) -> bool {
        spec_token_err_eq(self, other)
    }
}

/// The diagnostic text of a parser error.
pub open spec fn spec_dec_err_text(e: &DecimalNumberParsingError) -> Seq<char> {
    match e {
        DecimalNumberParsingError::InvalidNumber(t) => "invalid number: "@ + t@,
        DecimalNumberParsingError::LongWhole(t) => "too long whole part: "@ + t@,
        DecimalNumberParsingError::LongFractional(t) => "too long fractional part: "@ + t@,
    }
}

/// The diagnostic text of a token error.
pub open spec fn spec_token_err_text(e: &UncTokenError) -> Seq<char> {
    match e {
        UncTokenError::InvalidTokensAmount(d) => "invalid tokens amount: "@ + spec_dec_err_text(d),
        UncTokenError::InvalidTokenUnit(u) => "invalid token unit: "@ + u@,
    }
}

impl DecimalNumberParsingError {
    /// The diagnostic text: the failure kind followed by the offending
    /// substring.
    pub fn message(&self) -> (r: String)
        ensures
            r@ == spec_dec_err_text(self),
    {
        match self {
            DecimalNumberParsingError::InvalidNumber(t) => {
                let mut r = String::from_str("invalid number: ");
                r.append(t.as_str());
                r
            },
            DecimalNumberParsingError::LongWhole(t) => {
                let mut r = String::from_str("too long whole part: ");
                r.append(t.as_str());
                r
            },
            DecimalNumberParsingError::LongFractional(t) => {
                let mut r = String::from_str("too long fractional part: ");
                r.append(t.as_str());
                r
            },
        }
    }
}

impl UncTokenError {
    /// The diagnostic text: the failure kind followed by what offended.
    pub fn message(&self) -> (r: String)
        ensures
            r@ == spec_token_err_text(self),
    {
        match self {
            UncTokenError::InvalidTokensAmount(d) => {
                let mut r = String::from_str("invalid tokens amount: ");
                let inner = d.message();
                r.append(inner.as_str());
                r
            },
            UncTokenError::InvalidTokenUnit(u) => {
                let mut r = String::from_str("invalid token unit: ");
                r.append(u.as_str());
                r
            },
        }
    }
}

} // verus!
