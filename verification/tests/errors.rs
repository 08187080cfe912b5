use unc_token::{DecimalNumberParsingError, UncTokenError};

#[test]
fn test_unc_token_error_display() {
    assert_eq!(
        UncTokenError::InvalidTokensAmount(DecimalNumberParsingError::InvalidNumber(
            "abc".to_owned()
        ))
        .message(),
        "invalid tokens amount: invalid number: abc"
    );
    assert_eq!(
        UncTokenError::InvalidTokensAmount(DecimalNumberParsingError::LongWhole(
            "999999999999.0".to_owned()
        ))
        .message(),
        "invalid tokens amount: too long whole part: 999999999999.0"
    );
    assert_eq!(
        UncTokenError::InvalidTokensAmount(DecimalNumberParsingError::LongFractional(
            "0.999999999999".to_owned()
        ))
        .message(),
        "invalid tokens amount: too long fractional part: 0.999999999999"
    );
    assert_eq!(
        UncTokenError::InvalidTokenUnit("abc".to_owned()).message(),
        "invalid token unit: abc"
    );
}

#[test]
fn decimal_error_messages() {
    assert_eq!(
        DecimalNumberParsingError::InvalidNumber("1.1.1".to_owned()).message(),
        "invalid number: 1.1.1"
    );
    assert_eq!(
        DecimalNumberParsingError::LongWhole("123".to_owned()).message(),
        "too long whole part: 123"
    );
    assert_eq!(
        DecimalNumberParsingError::LongFractional("456".to_owned()).message(),
        "too long fractional part: 456"
    );
}

#[test]
fn error_equality_distinguishes_variants() {
    let a = DecimalNumberParsingError::InvalidNumber("x".to_owned());
    let b = DecimalNumberParsingError::LongWhole("x".to_owned());
    let c = DecimalNumberParsingError::InvalidNumber("y".to_owned());
    assert_ne!(a, b);
    assert_ne!(a, c);
    assert_eq!(a, DecimalNumberParsingError::InvalidNumber("x".to_owned()));
    assert_ne!(
        UncTokenError::InvalidTokenUnit("x".to_owned()),
        UncTokenError::InvalidTokensAmount(a)
    );
}
