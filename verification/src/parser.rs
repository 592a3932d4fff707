//! Value parsers for command-line input: a field element given as decimal
//! or `0x`-prefixed hexadecimal, and a token choice given by name or as a
//! hexadecimal element.

use vstd::prelude::*;
use crate::chain::{lower_u32, tag_matches};
use crate::field::{parse_agrees, spec_from_hex, spec_parse, ParseError, ScalarField};

verus! {

/// Parses a field element from command-line text: `0x`-prefixed text is
/// hexadecimal, anything else decimal.
#[derive(Clone, Copy, Debug)]
pub struct FieldElementParser;

impl FieldElementParser {
    pub fn parse(&self, value: &str) -> (res: Result<ScalarField, ParseError>)
        ensures
            parse_agrees(res, spec_parse(value@)),
    {
        ScalarField::parse(value)
    }
}

/// A token chosen on the command line: one of the two named tokens, or any
/// other token by its field-element address.
#[derive(Debug)]
pub enum TokenChoice {
    Ether,
    Dai,
    Other(ScalarField),
}

/// The case-folded reading of command-line text, by character code.
pub open spec fn lower_seq_u32(s: Seq<char>) -> Seq<u32> {
    s.map_values(|c: char| lower_u32(c as u32))
}

/// Parses a token choice: the names `ether` and `dai` match in any case;
/// any other text is read, after case folding, as a hexadecimal element
/// with an optional `0x` prefix.
#[derive(Clone, Copy, Debug)]
pub struct TokenValueParser;

impl TokenValueParser {
    pub fn parse(&self, value: &str) -> (res: Result<TokenChoice, ParseError>)
        ensures
            tag_matches(value@, "ether"@) ==> (res matches Ok(t) && t is Ether),
            tag_matches(value@, "dai"@) ==> (res matches Ok(t) && t is Dai),
            !tag_matches(value@, "ether"@) && !tag_matches(value@, "dai"@) ==> (match (
                res,
                spec_from_hex(lower_chars(value@)),
            ) {
                (Ok(t), Ok(n)) => t matches TokenChoice::Other(v) && v@ == n,
                (Err(e1), Err(e2)) => e1 == e2,
                _ => false,
            }),
    {
        proof {
            reveal_strlit("ether");
            reveal_strlit("dai");
            assert("ether"@.len() == 5 && "dai"@.len() == 3);
        }
        if crate::chain::tag_eq_pub(value, "ether") {
            Ok(TokenChoice::Ether)
        } else if crate::chain::tag_eq_pub(value, "dai") {
            Ok(TokenChoice::Dai)
        } else {
            match ScalarField::from_hex(lower_ascii(value).as_str()) {
                Ok(v) => Ok(TokenChoice::Other(v)),
                Err(e) => Err(e),
            }
        }
    }

    /// The token names offered for completion, in their stable order.
    pub fn possible_values(&self) -> (r: Vec<&'static str>)
        ensures
            r@.len() == 2,
            r@[0]@ == "ether"@,
            r@[1]@ == "dai"@,
    {
        let v: Vec<&'static str> = vec!["ether", "dai"];
        v
    }
}

/// The ASCII-lowercase reading of text: upper-case ASCII letters fold to
/// lower case, every other character stays.
pub open spec fn lower_chars(s: Seq<char>) -> Seq<char> {
    s.map_values(
        |c: char|
            if 65 <= c as u32 <= 90 {
                ((c as u32 + 32) as u8) as char
            } else {
                c
            },
    )
}

/// Folds upper-case ASCII letters of the input to lower case.
fn lower_ascii(s: &str) -> (r: String)
    ensures
        r@ == lower_chars(s@),
{
    let n = s.unicode_len();
    let mut out: Vec<char> = Vec::new();
    let mut i: usize = 0;
    while i < n
        invariant
            n == s@.len(),
            0 <= i <= n,
            out@ =~= lower_chars(s@.take(i as int)),
        decreases n - i,
    {
        let c = s.get_char(i);
        let u = c as u32;
        let folded: char = if 65 <= u && u <= 90 {
            ((u + 32) as u8) as char
        } else {
            c
        };
        out.push(folded);
        proof {
            assert(lower_chars(s@.take(i + 1)) =~= lower_chars(s@.take(i as int)).push(folded));
        }
        i = i + 1;
    }
    proof {
        assert(s@.take(n as int) =~= s@);
    }
    crate::field::chars_to_string(&out)
}

} // verus!
