use unc_token::UncToken;

#[test]
fn checked_add_tokens() {
    let tokens = UncToken::from_attounc(u128::MAX - 3);
    let any_tokens = UncToken::from_attounc(3);
    let more_tokens = UncToken::from_attounc(4);
    assert_eq!(
        tokens.checked_add(any_tokens),
        Some(UncToken::from_attounc(u128::MAX))
    );
    assert_eq!(tokens.checked_add(more_tokens), None);
}

#[test]
fn checked_sub_tokens() {
    let tokens = UncToken::from_attounc(3);
    let any_tokens = UncToken::from_attounc(1);
    let more_tokens = UncToken::from_attounc(4);
    assert_eq!(
        tokens.checked_sub(any_tokens),
        Some(UncToken::from_attounc(2))
    );
    assert_eq!(tokens.checked_sub(more_tokens), None);
}

#[test]
fn checked_mul_tokens() {
    let tokens = UncToken::from_attounc(u128::MAX / 10);
    assert_eq!(
        tokens.checked_mul(10),
        Some(UncToken::from_attounc(u128::MAX / 10 * 10))
    );
    assert_eq!(tokens.checked_mul(11), None);
}

#[test]
fn checked_div_tokens() {
    let tokens = UncToken::from_attounc(10);
    assert_eq!(tokens.checked_div(2), Some(UncToken::from_attounc(5)));
    assert_eq!(tokens.checked_div(11), Some(UncToken::from_attounc(0)));
    assert_eq!(tokens.checked_div(0), None);
}

#[test]
fn saturating_add_tokens() {
    let tokens = UncToken::from_attounc(100);
    let added_tokens = UncToken::from_attounc(1);
    let another_tokens = UncToken::from_attounc(u128::MAX);
    assert_eq!(
        tokens.saturating_add(added_tokens.clone()),
        UncToken::from_attounc(101)
    );
    assert_eq!(
        another_tokens.saturating_add(added_tokens),
        UncToken::from_attounc(u128::MAX)
    );
}

#[test]
fn saturating_sub_tokens() {
    let tokens = UncToken::from_attounc(100);
    let rhs_tokens = UncToken::from_attounc(1);
    let another_tokens = UncToken::from_attounc(u128::MIN);
    assert_eq!(
        tokens.saturating_sub(rhs_tokens.clone()),
        UncToken::from_attounc(99)
    );
    assert_eq!(
        another_tokens.saturating_sub(rhs_tokens),
        UncToken::from_attounc(u128::MIN)
    );
}

#[test]
fn saturating_mul_tokens() {
    let tokens = UncToken::from_attounc(2);
    let rhs = 10;
    let another_tokens = u128::MAX;
    assert_eq!(tokens.saturating_mul(rhs), UncToken::from_attounc(20));
    assert_eq!(
        tokens.saturating_mul(another_tokens),
        UncToken::from_attounc(u128::MAX)
    );
}

#[test]
fn saturating_div_tokens() {
    let tokens = UncToken::from_attounc(10);
    let rhs = 2;
    let another_tokens = 20;
    assert_eq!(tokens.saturating_div(rhs), UncToken::from_attounc(5));
    assert_eq!(
        tokens.saturating_div(another_tokens),
        UncToken::from_attounc(0)
    );
}

#[test]
fn saturating_results_stay_in_range() {
    // Saturating operations clamp at the bounds and never leave them.
    assert_eq!(
        UncToken::from_attounc(u128::MAX)
            .saturating_add(UncToken::from_attounc(u128::MAX))
            .as_attounc(),
        u128::MAX
    );
    assert_eq!(
        UncToken::from_attounc(0)
            .saturating_sub(UncToken::from_attounc(u128::MAX))
            .as_attounc(),
        0
    );
    assert_eq!(
        UncToken::from_attounc(u128::MAX).saturating_mul(u128::MAX).as_attounc(),
        u128::MAX
    );
    assert_eq!(UncToken::from_attounc(u128::MAX).saturating_div(0).as_attounc(), 0);
}

#[test]
fn checked_div_by_zero_and_saturating_div_by_zero() {
    // The deliberate split: checked division refuses a zero divisor,
    // saturating division yields the zero amount for it.
    for v in [0u128, 1, 10, u128::MAX] {
        assert_eq!(UncToken::from_attounc(v).checked_div(0), None);
        assert_eq!(
            UncToken::from_attounc(v).saturating_div(0),
            UncToken::from_attounc(0)
        );
    }
}

#[test]
fn scaled_constructors_and_accessors() {
    let one_unc = UncToken::from_attounc(10u128.pow(24));
    assert_eq!(one_unc, UncToken::from_unc(1));
    assert_eq!(one_unc, UncToken::from_milliunc(1000));
    assert_eq!(UncToken::from_milliunc(1), UncToken::from_attounc(10u128.pow(21)));
    assert_eq!(UncToken::from_attounc(10u128.pow(24)).as_unc(), 1);
    assert_eq!(UncToken::from_attounc(10u128.pow(21)).as_milliunc(), 1);
    assert_eq!(UncToken::from_attounc(10).as_attounc(), 10);
    // Scaling down truncates instead of rounding.
    assert_eq!(UncToken::from_attounc(2 * 10u128.pow(24) - 1).as_unc(), 1);
    assert_eq!(UncToken::from_attounc(10u128.pow(21) - 1).as_milliunc(), 0);
}

#[test]
fn checked_scaled_constructors() {
    assert_eq!(
        UncToken::checked_from_unc(1),
        Some(UncToken::from_attounc(10u128.pow(24)))
    );
    assert_eq!(
        UncToken::checked_from_milliunc(2),
        Some(UncToken::from_attounc(2 * 10u128.pow(21)))
    );
    assert_eq!(UncToken::checked_from_unc(u128::MAX), None);
    assert_eq!(UncToken::checked_from_milliunc(u128::MAX), None);
}

#[test]
fn is_zero_and_default() {
    assert!(UncToken::from_attounc(0).is_zero());
    assert!(!UncToken::from_attounc(1).is_zero());
    assert_eq!(UncToken::default(), UncToken::from_attounc(0));
}
