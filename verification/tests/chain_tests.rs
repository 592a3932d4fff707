use rika::chain::ChainId;
use rika::field::ScalarField;

#[test]
fn chain_value_round_trip() {
    for c in [ChainId::Mainnet, ChainId::Sepolia] {
        assert_eq!(ChainId::from_value(&c.id()).unwrap(), c);
    }
}

#[test]
fn chain_tag_round_trip_any_case() {
    for (tag, c) in [
        ("mainnet", ChainId::Mainnet),
        ("MAINNET", ChainId::Mainnet),
        ("MaInNeT", ChainId::Mainnet),
        ("sepolia", ChainId::Sepolia),
        ("Sepolia", ChainId::Sepolia),
    ] {
        let found = ChainId::from_tag(tag).unwrap();
        assert_eq!(found, c);
        assert_eq!(found.id(), c.id());
    }
}

#[test]
fn chain_rejects_zero_value() {
    let err = ChainId::from_value(&ScalarField::zero()).unwrap_err();
    assert_eq!(err.0, "0x0");
}

#[test]
fn chain_rejects_unknown_tag() {
    let err = ChainId::from_tag("goerli").unwrap_err();
    assert_eq!(err.0, "goerli");
}

#[test]
fn chain_constants_match_reference_crate() {
    assert_eq!(
        ChainId::Mainnet.id().to_bytes_be(),
        starknet_core::chain_id::MAINNET.to_bytes_be()
    );
    assert_eq!(
        ChainId::Sepolia.id().to_bytes_be(),
        starknet_core::chain_id::SEPOLIA.to_bytes_be()
    );
    assert_eq!(ChainId::Mainnet.id().to_hex(), "0x534e5f4d41494e");
    assert_eq!(ChainId::Sepolia.id().to_hex(), "0x534e5f5345504f4c4941");
}

#[test]
fn chain_names_are_stable() {
    assert_eq!(ChainId::options(), ["Mainnet", "Sepolia"]);
    assert_eq!(ChainId::Mainnet.display_name(), "mainnet");
    assert_eq!(ChainId::Sepolia.display_name(), "sepolia");
}
