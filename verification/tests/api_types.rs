use diem_core::api_types::{HexEncodedBytes, MoveFunctionVisibility, ParseError, U128, U64};

#[test]
fn test_serialize_deserialize_u64() {
    let val = serde_json::Value::String(U64::from(u64::MAX).to_string());
    assert_eq!(val, serde_json::Value::String(u64::MAX.to_string()));

    let json = serde_json::Value::String(u64::MAX.to_string());
    let data: U64 = U64::parse(json.as_str().unwrap()).unwrap();
    assert_eq!(u64::from(data), u64::MAX);
}

#[test]
fn test_serialize_deserialize_u128() {
    let val = serde_json::Value::String(U128::from(u128::MAX).to_string());
    assert_eq!(val, serde_json::Value::String(u128::MAX.to_string()));

    let json = serde_json::Value::String(u128::MAX.to_string());
    let data: U128 = U128::parse(json.as_str().unwrap()).unwrap();
    assert_eq!(u128::from(data), u128::MAX);
}

#[test]
fn numbers_as_decimal_text() {
    assert_eq!(U64::from(0).to_string(), "0");
    assert_eq!(U64::from(7).to_string(), "7");
    assert_eq!(U64::from(1234567890).to_string(), "1234567890");
    assert_eq!(U128::from(128).to_string(), "128");
    assert_eq!(U64::parse("0007"), Ok(U64::from(7)));
    assert_eq!(U64::parse("+1"), Ok(U64::from(1)));
    assert_eq!(U128::parse("+128"), Ok(U128::from(128)));
    assert_eq!(U64::parse("18446744073709551615"), Ok(U64::from(u64::MAX)));
}

#[test]
fn numbers_that_overflow_or_are_no_numbers_are_refused() {
    assert_eq!(
        U64::parse("18446744073709551616"),
        Err(ParseError::InvalidNumber)
    );
    assert_eq!(
        U128::parse("340282366920938463463374607431768211456"),
        Err(ParseError::InvalidNumber)
    );
    assert_eq!(U64::parse(""), Err(ParseError::InvalidNumber));
    assert_eq!(U64::parse("-1"), Err(ParseError::InvalidNumber));
    assert_eq!(U64::parse("+"), Err(ParseError::InvalidNumber));
    assert_eq!(U64::parse("++1"), Err(ParseError::InvalidNumber));
    assert_eq!(U64::parse("1+"), Err(ParseError::InvalidNumber));
    assert_eq!(U64::parse("12a"), Err(ParseError::InvalidNumber));
    assert_eq!(U64::parse("1 "), Err(ParseError::InvalidNumber));
    assert_eq!(
        U128::parse("99999999999999999999999999999999999999999999"),
        Err(ParseError::InvalidNumber)
    );
}

#[test]
fn hex_encoded_bytes_round_trip() {
    let bytes = HexEncodedBytes::from(vec![9, 9]);
    assert_eq!(bytes.to_string(), "0x0909");
    assert_eq!(HexEncodedBytes::parse("0x0909"), Ok(bytes));
    assert_eq!(HexEncodedBytes::from(vec![]).to_string(), "0x");
    assert_eq!(HexEncodedBytes::parse("0x"), Ok(HexEncodedBytes::from(vec![])));
    assert_eq!(
        HexEncodedBytes::from(vec![0x00, 0xab, 0xff]).to_string(),
        "0x00abff"
    );
    assert_eq!(
        HexEncodedBytes::parse("0x00ABff"),
        Ok(HexEncodedBytes::from(vec![0x00, 0xab, 0xff]))
    );
    assert_eq!(
        HexEncodedBytes::parse("00abff"),
        Err(ParseError::MissingPrefix)
    );
    assert_eq!(HexEncodedBytes::parse("0xabc"), Err(ParseError::InvalidHex));
    assert_eq!(HexEncodedBytes::parse("0xzz"), Err(ParseError::InvalidHex));
}

#[test]
fn visibility_names() {
    assert_eq!(MoveFunctionVisibility::Private.name(), "private");
    assert_eq!(MoveFunctionVisibility::Public.name(), "public");
    assert_eq!(MoveFunctionVisibility::Script.name(), "script");
    assert_eq!(MoveFunctionVisibility::Friend.name(), "friend");
}
