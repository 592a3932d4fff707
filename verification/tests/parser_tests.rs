use rika::field::ParseError;
use rika::parser::{FieldElementParser, TokenChoice, TokenValueParser};

#[test]
fn field_element_parser_reads_both_forms() {
    let p = FieldElementParser;
    assert_eq!(p.parse("0x10").unwrap().to_decimal(), "16");
    assert_eq!(p.parse("16").unwrap().to_decimal(), "16");
    assert_eq!(p.parse("16x"), Err(ParseError::Malformed));
}

#[test]
fn token_parser_knows_the_named_tokens() {
    let p = TokenValueParser;
    assert!(matches!(p.parse("ether").unwrap(), TokenChoice::Ether));
    assert!(matches!(p.parse("Ether").unwrap(), TokenChoice::Ether));
    assert!(matches!(p.parse("DAI").unwrap(), TokenChoice::Dai));
}

#[test]
fn token_parser_folds_case_before_hex_parsing() {
    let p = TokenValueParser;
    match p.parse("0X1A").unwrap() {
        TokenChoice::Other(v) => assert_eq!(v.to_decimal(), "26"),
        other => panic!("expected a field element, got {:?}", other),
    }
    assert!(matches!(p.parse("zz"), Err(ParseError::Malformed)));
}

#[test]
fn token_parser_offers_the_names() {
    let p = TokenValueParser;
    assert_eq!(p.possible_values(), ["ether", "dai"]);
}
