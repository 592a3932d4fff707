use rika::crypto::{domain_hash, pair_hash, sign, verify, Signature, SignError, VerifyError};
use rika::field::ScalarField;

fn felt_of(v: &ScalarField) -> starknet_core::types::Felt {
    let bytes: [u8; 32] = v.to_bytes_be().try_into().unwrap();
    starknet_core::types::Felt::from_bytes_be(&bytes)
}

#[test]
fn pedersen_known_vector() {
    let a = ScalarField::parse(
        "0x03d937c035c878245caf64531a5756109c53068da139362728feb561405371cb",
    )
    .unwrap();
    let b = ScalarField::parse(
        "0x0208a0a10250e382e1e4bbe2880906c2791bf6275695e02fbbc6aeff9cd8b31a",
    )
    .unwrap();
    let h = pair_hash(&a, &b);
    assert_eq!(
        h.to_hex(),
        "0x30e480bed5fe53fa909cc0f8c4d99b8f9f2c016be4c41e13a4848797979c662"
    );
}

#[test]
fn pedersen_is_deterministic_and_order_sensitive() {
    let a = ScalarField::parse("0x1").unwrap();
    let b = ScalarField::parse("0x2").unwrap();
    let h1 = pair_hash(&a, &b);
    let h2 = pair_hash(&a, &b);
    assert_eq!(h1, h2);
    let swapped = pair_hash(&b, &a);
    assert_ne!(h1, swapped);
}

#[test]
fn domain_hash_known_vector() {
    let h = domain_hash(b"execute");
    assert_eq!(
        h.to_hex(),
        "0x240060cdb34fcc260f41eac7474ee1d7c80b7e3607daff9ac67c7ea2ebb1c44"
    );
}

#[test]
fn domain_hash_matches_reference_crate() {
    let data = b"some arbitrary input";
    let ours = domain_hash(data);
    let theirs = starknet_core::utils::starknet_keccak(data);
    assert_eq!(felt_of(&ours), theirs);
}

#[test]
fn sign_verify_round_trip() {
    let private_key =
        ScalarField::parse("0x139fe4d6f02e666e86a6f58e65060f115cd3c185bd9e98bd829636931458f79")
            .unwrap();
    let message_hash =
        ScalarField::parse("0x6fea80189363a786037ed3e7ba546dad8ef7c385576a63d132b661689ce736")
            .unwrap();
    let public_key = {
        let pk = starknet_crypto::get_public_key(&felt_of(&private_key));
        ScalarField::from_bytes_be(&pk.to_bytes_be()).unwrap()
    };
    let sig = sign(&private_key, &message_hash).unwrap();
    assert_eq!(verify(&public_key, &message_hash, &sig), Ok(true));
}

#[test]
fn sign_is_deterministic() {
    let k = ScalarField::parse("0x1234").unwrap();
    let h = ScalarField::parse("0x5678").unwrap();
    let s1 = sign(&k, &h).unwrap();
    let s2 = sign(&k, &h).unwrap();
    assert_eq!(s1.r, s2.r);
    assert_eq!(s1.s, s2.s);
}

#[test]
fn sign_matches_reference_crate() {
    let k = ScalarField::parse("0x1234").unwrap();
    let h = ScalarField::parse("0x5678").unwrap();
    let ours = sign(&k, &h).unwrap();
    let theirs = starknet_core::crypto::ecdsa_sign(&felt_of(&k), &felt_of(&h)).unwrap();
    assert_eq!(felt_of(&ours.r), theirs.r);
    assert_eq!(felt_of(&ours.s), theirs.s);
}

#[test]
fn flipped_signature_bit_fails_verification() {
    let private_key = ScalarField::parse("0x123456789").unwrap();
    let message_hash = ScalarField::parse("0xabcdef").unwrap();
    let public_key = {
        let pk = starknet_crypto::get_public_key(&felt_of(&private_key));
        ScalarField::from_bytes_be(&pk.to_bytes_be()).unwrap()
    };
    let sig = sign(&private_key, &message_hash).unwrap();

    let mut r_bytes = sig.r.to_bytes_be();
    r_bytes[31] ^= 1;
    let flipped_r = Signature {
        r: ScalarField::from_bytes_be(&r_bytes).unwrap(),
        s: ScalarField::from_bytes_be(&sig.s.to_bytes_be()).unwrap(),
    };
    assert_eq!(verify(&public_key, &message_hash, &flipped_r), Ok(false));

    let mut s_bytes = sig.s.to_bytes_be();
    s_bytes[31] ^= 1;
    let flipped_s = Signature {
        r: ScalarField::from_bytes_be(&sig.r.to_bytes_be()).unwrap(),
        s: ScalarField::from_bytes_be(&s_bytes).unwrap(),
    };
    assert_eq!(verify(&public_key, &message_hash, &flipped_s), Ok(false));
}

#[test]
fn sign_rejects_invalid_inputs() {
    let zero = ScalarField::zero();
    let h = ScalarField::parse("0x1").unwrap();
    assert!(matches!(sign(&zero, &h), Err(SignError::InvalidKey)));

    let k = ScalarField::parse("0x1").unwrap();
    // 2^251 is the first value out of the message-hash range
    let big = ScalarField::parse(&format!("0x8{}", "0".repeat(62))).unwrap();
    assert!(matches!(sign(&k, &big), Err(SignError::InvalidMessageHash)));
}

#[test]
fn sign_rejects_keys_at_or_above_the_curve_order() {
    let h = ScalarField::parse("0x1").unwrap();
    // the curve order n and a value above it are not valid keys
    let order =
        ScalarField::parse("0x800000000000010ffffffffffffffffb781126dcae7b2321e66a241adc64d2f")
            .unwrap();
    assert!(matches!(sign(&order, &h), Err(SignError::InvalidKey)));
    let above =
        ScalarField::parse("0x800000000000010ffffffffffffffffb781126dcae7b2321e66a241adc64d30")
            .unwrap();
    assert!(matches!(sign(&above, &h), Err(SignError::InvalidKey)));
    // n - 1 is still a valid key
    let below =
        ScalarField::parse("0x800000000000010ffffffffffffffffb781126dcae7b2321e66a241adc64d2e")
            .unwrap();
    assert!(sign(&below, &h).is_ok());
}

#[test]
fn verify_rejects_out_of_range_inputs() {
    let pk = ScalarField::parse("0x1").unwrap();
    let h = ScalarField::parse("0x1").unwrap();
    let big = ScalarField::parse(&format!("0x8{}", "0".repeat(62))).unwrap();
    let one = ScalarField::parse("0x1").unwrap();

    let sig = Signature {
        r: ScalarField::zero(),
        s: ScalarField::parse("0x1").unwrap(),
    };
    assert_eq!(
        verify(&pk, &h, &sig),
        Err(VerifyError::SignatureROutOfRange)
    );

    let sig2 = Signature {
        r: ScalarField::parse("0x1").unwrap(),
        s: ScalarField::zero(),
    };
    assert_eq!(
        verify(&pk, &h, &sig2),
        Err(VerifyError::SignatureSOutOfRange)
    );

    let sig3 = Signature {
        r: one,
        s: ScalarField::parse("0x1").unwrap(),
    };
    assert_eq!(
        verify(&pk, &big, &sig3),
        Err(VerifyError::MessageHashOutOfRange)
    );
}

#[test]
fn verify_rejects_a_point_off_the_curve() {
    // roughly half of all x values are not on the curve; one of these small
    // public keys must be rejected as an invalid point
    let h = ScalarField::parse("0x1").unwrap();
    let sig = Signature {
        r: ScalarField::parse("0x1").unwrap(),
        s: ScalarField::parse("0x1").unwrap(),
    };
    let mut rejected = false;
    for pk in 1u32..20 {
        let key = ScalarField::parse(&format!("{pk}")).unwrap();
        if verify(&key, &h, &sig) == Err(VerifyError::InvalidPublicKey) {
            rejected = true;
            break;
        }
    }
    assert!(rejected);
}
