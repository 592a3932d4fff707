use rika::cast::{CastError, SimpleCast};
use rika::field::{ParseError, ShortStringError};

#[test]
fn address_zero_is_canonical_hex() {
    assert_eq!(SimpleCast::address_zero(), "0x0");
}

#[test]
fn to_hex_converts_decimal() {
    assert_eq!(SimpleCast::to_hex("26").unwrap(), "0x1a");
    assert_eq!(SimpleCast::to_hex("0").unwrap(), "0x0");
    assert_eq!(SimpleCast::to_hex("0x1a"), Err(ParseError::Malformed));
}

#[test]
fn to_dec_converts_hex_with_or_without_prefix() {
    assert_eq!(SimpleCast::to_dec("0x1a").unwrap(), "26");
    assert_eq!(SimpleCast::to_dec("1a").unwrap(), "26");
    assert_eq!(SimpleCast::to_dec("0xg"), Err(ParseError::Malformed));
}

#[test]
fn max_and_signed_bounds_are_exact() {
    assert_eq!(
        SimpleCast::max_felt(),
        "3618502788666131213697322783095070105623107215331596699973092056135872020480"
    );
    assert_eq!(
        SimpleCast::max_signed_felt(),
        "1809251394333065606848661391547535052811553607665798349986546028067936010240"
    );
    assert_eq!(
        SimpleCast::min_signed_felt(),
        "-1809251394333065606848661391547535052811553607665798349986546028067936010240"
    );
}

#[test]
fn keccak_hashes_text_and_hex() {
    assert_eq!(
        SimpleCast::keccak("execute").unwrap(),
        "0x240060cdb34fcc260f41eac7474ee1d7c80b7e3607daff9ac67c7ea2ebb1c44"
    );
    // 0x-prefixed input is decoded into bytes before hashing
    let from_hex = SimpleCast::keccak("0x65786563757465").unwrap();
    assert_eq!(
        from_hex,
        "0x240060cdb34fcc260f41eac7474ee1d7c80b7e3607daff9ac67c7ea2ebb1c44"
    );
    assert_eq!(SimpleCast::keccak("0x123"), Err(ParseError::Malformed));
    assert_eq!(SimpleCast::keccak("0x12zz"), Err(ParseError::Malformed));
}

#[test]
fn pedersen_accepts_hex_and_tags() {
    let h = SimpleCast::pedersen(
        "0x03d937c035c878245caf64531a5756109c53068da139362728feb561405371cb",
        "0x0208a0a10250e382e1e4bbe2880906c2791bf6275695e02fbbc6aeff9cd8b31a",
    )
    .unwrap();
    assert_eq!(
        h,
        "0x30e480bed5fe53fa909cc0f8c4d99b8f9f2c016be4c41e13a4848797979c662"
    );

    // a bare tag is packed as a short string before hashing
    let tagged = SimpleCast::pedersen("SN_MAIN", "0x1").unwrap();
    let reference = starknet_core::crypto::pedersen_hash(
        &starknet_core::utils::cairo_short_string_to_felt("SN_MAIN").unwrap(),
        &starknet_core::types::Felt::ONE,
    );
    assert_eq!(tagged, format!("{:#x}", reference));

    assert!(matches!(
        SimpleCast::pedersen("0xzz", "0x1"),
        Err(CastError::Parse(ParseError::Malformed))
    ));
}

#[test]
fn str_to_felt_and_back() {
    assert_eq!(
        SimpleCast::str_to_felt("SN_MAIN").unwrap(),
        "0x534e5f4d41494e"
    );
    assert_eq!(
        SimpleCast::from_utf8("0x534e5f4d41494e").unwrap(),
        "SN_MAIN"
    );
    assert!(matches!(
        SimpleCast::str_to_felt("12345678901234567890123456789012"),
        Err(ShortStringError::TooLong)
    ));
}

#[test]
fn from_utf8_rejects_bad_packings() {
    // an interior zero byte between two non-zero bytes
    assert!(matches!(
        SimpleCast::from_utf8("0x530053"),
        Err(CastError::ShortString(
            ShortStringError::UnexpectedNullTerminator
        ))
    ));
    // a value of 2^248 or more cannot be a 31-byte short string
    let big = format!("0x1{}", "0".repeat(62));
    assert!(matches!(
        SimpleCast::from_utf8(&big),
        Err(CastError::ShortString(ShortStringError::ValueOutOfRange))
    ));
    assert!(matches!(
        SimpleCast::from_utf8("0xzz"),
        Err(CastError::Parse(ParseError::Malformed))
    ));
}

#[test]
fn ecdsa_sign_and_verify_through_text() {
    let private_key = "0x139fe4d6f02e666e86a6f58e65060f115cd3c185bd9e98bd829636931458f79";
    let message_hash = "0x6fea80189363a786037ed3e7ba546dad8ef7c385576a63d132b661689ce736";
    let sig = SimpleCast::ecdsa_sign(private_key, message_hash).unwrap();

    let pk_felt = starknet_crypto::get_public_key(
        &starknet_core::types::Felt::from_hex(private_key).unwrap(),
    );
    let public_key = format!("{:#x}", pk_felt);
    let r = sig.r.to_hex();
    let s = sig.s.to_hex();
    assert_eq!(
        SimpleCast::ecdsa_verify(&public_key, message_hash, &r, &s),
        Ok(true)
    );
    // a wrong hash verifies as false, not as an error
    assert_eq!(
        SimpleCast::ecdsa_verify(&public_key, "0x1234", &r, &s),
        Ok(false)
    );
    assert!(matches!(
        SimpleCast::ecdsa_sign("0xzz", message_hash),
        Err(CastError::Parse(ParseError::Malformed))
    ));
}
