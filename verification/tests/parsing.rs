use unc_token::{DecimalNumberParsingError, UncToken, UncTokenError};

#[test]
fn parse_decimal_number() {
    let data = "0.123456 unc";
    let gas: Result<UncToken, UncTokenError> = UncToken::from_str(data);
    assert_eq!(
        gas.unwrap(),
        UncToken::from_attounc(123456000000000000000000)
    );
}

#[test]
fn parse_number_with_decimal_part() {
    let data = "11.123456 unc";
    let gas: Result<UncToken, UncTokenError> = UncToken::from_str(data);
    assert_eq!(
        gas.unwrap(),
        UncToken::from_attounc(11123456000000000000000000)
    );
}

#[test]
fn parse_atto_number() {
    let data = "123456 YN";
    let gas: Result<UncToken, UncTokenError> = UncToken::from_str(data);
    assert_eq!(gas.unwrap(), UncToken::from_attounc(123456));
}

#[test]
fn doubledot() {
    let data = "1.1.1 Near";
    let gas: Result<UncToken, UncTokenError> = UncToken::from_str(data);
    assert_eq!(
        gas,
        Err(UncTokenError::InvalidTokensAmount(
            DecimalNumberParsingError::InvalidNumber("1.1.1".to_owned())
        ))
    )
}

#[test]
fn space_after_dot() {
    let data = "1. 0 unc";
    let gas: Result<UncToken, UncTokenError> = UncToken::from_str(data);
    assert_eq!(
        gas,
        Err(UncTokenError::InvalidTokensAmount(
            DecimalNumberParsingError::InvalidNumber("1. 0".to_owned())
        ))
    )
}

#[test]
fn incorect_currency() {
    let data = "0 pas";
    let gas: Result<UncToken, UncTokenError> = UncToken::from_str(data);
    assert_eq!(gas, Err(UncTokenError::InvalidTokenUnit(data.to_owned())))
}

#[test]
fn without_currency() {
    let data = "0";
    let gas: Result<UncToken, UncTokenError> = UncToken::from_str(data);
    assert_eq!(gas, Err(UncTokenError::InvalidTokenUnit("0".to_owned())))
}

#[test]
fn invalid_whole() {
    let data = "-1 Near";
    let gas: Result<UncToken, UncTokenError> = UncToken::from_str(data);
    assert_eq!(
        gas,
        Err(UncTokenError::InvalidTokensAmount(
            DecimalNumberParsingError::InvalidNumber("-1".to_owned())
        ))
    )
}

#[test]
fn test_from_str_f64_gas_without_int() {
    let near_gas = UncToken::from_str(".055 ynear").unwrap_err();
    assert_eq!(
        near_gas,
        UncTokenError::InvalidTokensAmount(DecimalNumberParsingError::InvalidNumber(
            ".055".to_string()
        ))
    );
}

#[test]
fn test_from_str_without_unit() {
    let near_gas = UncToken::from_str("100").unwrap_err();
    assert_eq!(
        near_gas,
        UncTokenError::InvalidTokenUnit("100".to_string())
    );
}

#[test]
fn test_from_str_incorrect_unit() {
    let near_gas = UncToken::from_str("100 UAH").unwrap_err();
    assert_eq!(
        near_gas,
        UncTokenError::InvalidTokenUnit("100 UAH".to_string())
    );
}

#[test]
fn test_from_str_invalid_double_dot() {
    let near_gas = UncToken::from_str("100.55.").unwrap_err();
    assert_eq!(
        near_gas,
        UncTokenError::InvalidTokenUnit("100.55.".to_string())
    );
}

#[test]
fn test_from_str_large_fractional_part() {
    let near_gas = UncToken::from_str("100.1111122222333 ynear").unwrap_err(); // 13 digits after "."
    assert_eq!(
        near_gas,
        UncTokenError::InvalidTokensAmount(DecimalNumberParsingError::LongFractional(
            "1111122222333".to_string()
        ))
    );
}

#[test]
fn parse_base_unit_uppercase() {
    // The base-unit scale accepts as many fractional digits as it has
    // decimal places, and the suffix is recognized in any case.
    let gas = UncToken::from_str("0.123456 UNC").unwrap();
    assert_eq!(gas, UncToken::from_attounc(123456 * 10u128.pow(18)));
}

#[test]
fn parse_whole_part_overflow() {
    // A whole part that exceeds the 128-bit count once scaled.
    let near_gas = UncToken::from_str("999999999999999999 unc").unwrap_err();
    assert_eq!(
        near_gas,
        UncTokenError::InvalidTokensAmount(DecimalNumberParsingError::LongWhole(
            "999999999999999999".to_string()
        ))
    );
}

#[test]
fn parse_largest_count() {
    // The largest representable count parses exactly, one more does not.
    let max_text = "340282366920938463463374607431768211455 YN";
    assert_eq!(
        UncToken::from_str(max_text).unwrap(),
        UncToken::from_attounc(u128::MAX)
    );
    let over_text = "340282366920938463463374607431768211456 YN";
    assert_eq!(
        UncToken::from_str(over_text).unwrap_err(),
        UncTokenError::InvalidTokensAmount(DecimalNumberParsingError::LongWhole(
            "340282366920938463463374607431768211456".to_string()
        ))
    );
}

#[test]
fn parse_empty_fragment() {
    // A unit with no number before it leaves an empty fragment.
    let near_gas = UncToken::from_str("unc").unwrap_err();
    assert_eq!(
        near_gas,
        UncTokenError::InvalidTokensAmount(DecimalNumberParsingError::InvalidNumber(
            "".to_string()
        ))
    );
}

#[test]
fn parse_trims_whitespace() {
    let gas = UncToken::from_str("  5 YN  ").unwrap();
    assert_eq!(gas, UncToken::from_attounc(5));
}

#[test]
fn parse_smallest_unit_takes_no_fraction() {
    // A scale of one permits zero fractional digits.
    let near_gas = UncToken::from_str("1.5 YN").unwrap_err();
    assert_eq!(
        near_gas,
        UncTokenError::InvalidTokensAmount(DecimalNumberParsingError::LongFractional(
            "5".to_string()
        ))
    );
}
