use rika::field::{ParseError, ScalarField, ShortStringError};

#[test]
fn parse_decimal_round_trip() {
    let v = ScalarField::parse("1234").unwrap();
    assert_eq!(v.to_decimal(), "1234");
    assert_eq!(ScalarField::parse(&v.to_decimal()).unwrap(), v);
    assert_eq!(ScalarField::parse(&v.to_hex()).unwrap(), v);
}

#[test]
fn parse_hex_round_trip() {
    let v = ScalarField::parse("0x4d2").unwrap();
    assert_eq!(v.to_decimal(), "1234");
    assert_eq!(v.to_hex(), "0x4d2");
    assert_eq!(ScalarField::parse(&v.to_hex()).unwrap(), v);
    assert_eq!(ScalarField::parse(&v.to_decimal()).unwrap(), v);
}

#[test]
fn parse_hex_is_case_insensitive_and_minimal() {
    let v = ScalarField::parse("0x00FF").unwrap();
    assert_eq!(v.to_hex(), "0xff");
    assert_eq!(v.to_decimal(), "255");
}

#[test]
fn parse_rejects_malformed_text() {
    assert_eq!(ScalarField::parse(""), Err(ParseError::Malformed));
    assert_eq!(ScalarField::parse("0x"), Err(ParseError::Malformed));
    assert_eq!(ScalarField::parse("12a3"), Err(ParseError::Malformed));
    assert_eq!(ScalarField::parse("0xzz"), Err(ParseError::Malformed));
    assert_eq!(ScalarField::parse("-5"), Err(ParseError::Malformed));
}

#[test]
fn parse_rejects_values_at_or_above_p() {
    let all_f = format!("0x{}", "f".repeat(64));
    assert_eq!(ScalarField::parse(&all_f), Err(ParseError::OutOfRange));
    // P itself is out of range, P - 1 is not
    let p_dec = "3618502788666131213697322783095070105623107215331596699973092056135872020481";
    assert_eq!(ScalarField::parse(p_dec), Err(ParseError::OutOfRange));
    let p_minus_1 = "3618502788666131213697322783095070105623107215331596699973092056135872020480";
    assert!(ScalarField::parse(p_minus_1).is_ok());
}

#[test]
fn constants_are_exact() {
    assert_eq!(ScalarField::zero().to_decimal(), "0");
    assert_eq!(ScalarField::zero().to_hex(), "0x0");
    assert_eq!(
        ScalarField::max_value().to_decimal(),
        "3618502788666131213697322783095070105623107215331596699973092056135872020480"
    );
}

#[test]
fn bytes_round_trip() {
    let mut b = vec![0u8; 32];
    b[0] = 0x07;
    b[15] = 0xab;
    b[31] = 0x01;
    let v = ScalarField::from_bytes_be(&b).unwrap();
    assert_eq!(v.to_bytes_be(), b);

    let zero = ScalarField::from_bytes_be(&vec![0u8; 32]).unwrap();
    assert_eq!(zero, ScalarField::zero());
}

#[test]
fn bytes_above_p_are_rejected() {
    let b = vec![0xffu8; 32];
    assert!(matches!(
        ScalarField::from_bytes_be(&b),
        Err(ParseError::OutOfRange)
    ));
}

#[test]
fn to_bytes_matches_hex_crate_encoding() {
    let v = ScalarField::parse("0xdeadbeef").unwrap();
    let encoded = hex::encode(v.to_bytes_be());
    assert_eq!(
        encoded,
        "00000000000000000000000000000000000000000000000000000000deadbeef"
    );
}

#[test]
fn pack_ascii_packs_low_bytes() {
    let v = ScalarField::pack_ascii("SN_MAIN").unwrap();
    assert_eq!(v.to_hex(), "0x534e5f4d41494e");
    let empty = ScalarField::pack_ascii("").unwrap();
    assert_eq!(empty, ScalarField::zero());
}

#[test]
fn pack_ascii_rejects_bad_tags() {
    assert!(matches!(
        ScalarField::pack_ascii("12345678901234567890123456789012"),
        Err(ShortStringError::TooLong)
    ));
    assert!(matches!(
        ScalarField::pack_ascii("héllo"),
        Err(ShortStringError::NonAsciiCharacter)
    ));
}

#[test]
fn short_string_round_trip() {
    let v = ScalarField::pack_ascii("hello world").unwrap();
    assert_eq!(v.to_short_string().unwrap(), "hello world");
    assert_eq!(ScalarField::zero().to_short_string().unwrap(), "");
}
