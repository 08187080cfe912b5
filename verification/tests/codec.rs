use unc_token::UncToken;

#[test]
fn borsh() {
    for (val, expected_serialized_value) in [
        (
            u128::MAX,
            [
                255, 255, 255, 255, 255, 255, 255, 255, 255, 255, 255, 255, 255, 255, 255, 255,
            ],
        ),
        (8, [8, 0, 0, 0, 0, 0, 0, 0, 0, 0, 0, 0, 0, 0, 0, 0]),
        (0, [0, 0, 0, 0, 0, 0, 0, 0, 0, 0, 0, 0, 0, 0, 0, 0]),
    ] {
        let gas = UncToken::from_attounc(val);
        let ser = gas.to_le_bytes();
        assert_eq!(expected_serialized_value, ser.as_slice());
        let de: UncToken = UncToken::from_le_bytes(&ser).unwrap();
        assert_eq!(de.as_attounc(), val);
    }
}

#[test]
fn le_bytes_wrong_length_is_refused() {
    assert_eq!(UncToken::from_le_bytes(&[0u8; 15]), None);
    assert_eq!(UncToken::from_le_bytes(&[0u8; 17]), None);
    assert_eq!(UncToken::from_le_bytes(&[]), None);
}

#[test]
fn decimal_text_round_trip() {
    for val in [0u128, 8, 100, 12345678901234567890, u128::MAX] {
        let text = UncToken::from_attounc(val).to_decimal_text();
        assert_eq!(text, val.to_string());
        assert_eq!(
            UncToken::from_decimal_text(&text),
            Some(UncToken::from_attounc(val))
        );
    }
}

#[test]
fn decimal_text_rejects_bad_input() {
    assert_eq!(UncToken::from_decimal_text(""), None);
    assert_eq!(UncToken::from_decimal_text("12a3"), None);
    assert_eq!(UncToken::from_decimal_text("-1"), None);
    assert_eq!(UncToken::from_decimal_text("1.0"), None);
    // One above the largest representable count.
    assert_eq!(
        UncToken::from_decimal_text("340282366920938463463374607431768211456"),
        None
    );
}

#[test]
fn le_bytes_round_trip() {
    for val in [0u128, 1, 255, 256, 12345678901234567890, u128::MAX] {
        let ser = UncToken::from_attounc(val).to_le_bytes();
        assert_eq!(ser.len(), 16);
        assert_eq!(
            UncToken::from_le_bytes(&ser).unwrap(),
            UncToken::from_attounc(val)
        );
    }
}
