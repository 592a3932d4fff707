//! Chain identifiers.
//!
//! A `ChainId` names one deployment of the target chain out of a closed set.
//! Each variant owns one field-element constant, obtained by packing a short
//! ASCII tag (`SN_MAIN`, `SN_SEPOLIA`) into the 32-byte big-endian layout;
//! the tag-to-value and value-to-tag mappings are inverses on that set, and
//! anything outside it is rejected, never coerced.

use vstd::prelude::*;
use vstd::pervasive::unreached;
use vstd::utf8::is_ascii_chars;
use crate::bignum::be_nat;
use crate::field::{ascii_bytes_of, hex_render, ScalarField};

verus! {

/// The closed set of recognized networks.
#[derive(Clone, Copy, Debug, PartialEq, Eq, Structural)]
pub enum ChainId {
    Mainnet,
    Sepolia,
}

/// A tag or value outside the closed set, carrying the rejected text or the
/// rejected value as `0x`-prefixed hexadecimal.
#[derive(Debug)]
pub struct InvalidChain(pub String);

/// The bytes of the ASCII tag `SN_MAIN`.
pub open spec fn sn_main_bytes() -> Seq<u8> {
    seq![0x53u8, 0x4eu8, 0x5fu8, 0x4du8, 0x41u8, 0x49u8, 0x4eu8]
}

/// The bytes of the ASCII tag `SN_SEPOLIA`.
pub open spec fn sn_sepolia_bytes() -> Seq<u8> {
    seq![0x53u8, 0x4eu8, 0x5fu8, 0x53u8, 0x45u8, 0x50u8, 0x4fu8, 0x4cu8, 0x49u8, 0x41u8]
}

/// The field-element constant owned by a variant: its tag's bytes read as a
/// big-endian integer.
pub open spec fn chain_value(c: ChainId) -> nat {
    match c {
        ChainId::Mainnet => be_nat(sn_main_bytes()),
        ChainId::Sepolia => be_nat(sn_sepolia_bytes()),
    }
}

/// The ASCII code of `u` with an upper-case letter folded to lower case.
pub open spec fn lower_u32(u: u32) -> u32 {
    if 65 <= u <= 90 {
        (u + 32) as u32
    } else {
        u
    }
}

/// Case-insensitive equality of a string with a lowercase tag.
pub open spec fn tag_matches(s: Seq<char>, t: Seq<char>) -> bool {
    s.len() == t.len() && (forall|i: int|
        0 <= i < s.len() ==> lower_u32(#[trigger] s[i] as u32) == t[i] as u32)
}

impl ChainId {
    /// The variant's field-element constant.
    pub fn id(&self) -> (r: ScalarField)
        ensures
            r@ == chain_value(*self),
    {
        let tag: &str = match self {
            ChainId::Mainnet => "SN_MAIN",
            ChainId::Sepolia => "SN_SEPOLIA",
        };
        proof {
            reveal_strlit("SN_MAIN");
            reveal_strlit("SN_SEPOLIA");
            assert(is_ascii_chars("SN_MAIN"@));
            assert(is_ascii_chars("SN_SEPOLIA"@));
            assert(ascii_bytes_of("SN_MAIN"@) =~= sn_main_bytes());
            assert(ascii_bytes_of("SN_SEPOLIA"@) =~= sn_sepolia_bytes());
        }
        match ScalarField::pack_ascii(tag) {
            Ok(v) => v,
            Err(_) => unreached(),
        }
    }

    /// The recognized variant names, in their stable order.
    pub fn options() -> (r: Vec<&'static str>)
        ensures
            r@.len() == 2,
            r@[0]@ == "Mainnet"@,
            r@[1]@ == "Sepolia"@,
    {
        let v: Vec<&'static str> = vec!["Mainnet", "Sepolia"];
        v
    }

    /// The lowercase canonical name of the variant.
    pub fn display_name(&self) -> (r: String)
        ensures
            *self == ChainId::Mainnet ==> r@ == "mainnet"@,
            *self == ChainId::Sepolia ==> r@ == "sepolia"@,
    {
        match self {
            ChainId::Mainnet => "mainnet".to_owned(),
            ChainId::Sepolia => "sepolia".to_owned(),
        }
    }

    /// Looks a variant up by its name, case-insensitively; an unrecognized
    /// tag is rejected with the tag itself.
    pub fn from_tag(s: &str) -> (res: Result<ChainId, InvalidChain>)
        ensures
            tag_matches(s@, "mainnet"@) ==> (res matches Ok(c) && c == ChainId::Mainnet),
            tag_matches(s@, "sepolia"@) ==> (res matches Ok(c) && c == ChainId::Sepolia),
            !tag_matches(s@, "mainnet"@) && !tag_matches(s@, "sepolia"@) ==> (res matches Err(e)
                && e.0@ == s@),
    {
        proof {
            lemma_chain_tag_unambiguous(s@);
        }
        if tag_eq_pub(s, "mainnet") {
            Ok(ChainId::Mainnet)
        } else if tag_eq_pub(s, "sepolia") {
            Ok(ChainId::Sepolia)
        } else {
            Err(InvalidChain(s.to_owned()))
        }
    }

    /// Looks a variant up by its field-element constant; an unrecognized
    /// value is rejected with the value shown as hexadecimal.
    pub fn from_value(v: &ScalarField) -> (res: Result<ChainId, InvalidChain>)
        ensures
            v@ == chain_value(ChainId::Mainnet) ==> (res matches Ok(c) && c == ChainId::Mainnet),
            v@ == chain_value(ChainId::Sepolia) ==> (res matches Ok(c) && c == ChainId::Sepolia),
            v@ != chain_value(ChainId::Mainnet) && v@ != chain_value(ChainId::Sepolia) ==> (
            res matches Err(e) && e.0@ == hex_render(v@)),
    {
        let main_id = ChainId::Mainnet.id();
        let sepolia_id = ChainId::Sepolia.id();
        if *v == main_id {
            Ok(ChainId::Mainnet)
        } else if *v == sepolia_id {
            Ok(ChainId::Sepolia)
        } else {
            Err(InvalidChain(v.to_hex()))
        }
    }
}

/// Compares a string, case-insensitively, with a lowercase tag.
pub fn tag_eq_pub(s: &str, t: &str) -> (r: bool)
    ensures
        r == tag_matches(s@, t@),
{
    let n = s.unicode_len();
    let m = t.unicode_len();
    if n != m {
        return false;
    }
    let mut i: usize = 0;
    while i < n
        invariant
            n == s@.len(),
            n == t@.len(),
            0 <= i <= n,
            forall|j: int| 0 <= j < i ==> lower_u32(#[trigger] s@[j] as u32) == t@[j] as u32,
        decreases n - i,
    {
        let cu = s.get_char(i) as u32;
        let cl: u32 = if 65 <= cu && cu <= 90 {
            cu + 32
        } else {
            cu
        };
        let tu = t.get_char(i) as u32;
        if cl != tu {
            proof {
                assert(lower_u32(s@[i as int] as u32) != t@[i as int] as u32);
            }
            return false;
        }
        i = i + 1;
    }
    true
}

/// Inverse law, value side: resolving a variant's own constant finds the
/// variant again, for every variant of the closed set.
pub proof fn lemma_chain_value_round_trip(c: ChainId)
    ensures
        chain_value(c) == chain_value(ChainId::Mainnet) <==> c == ChainId::Mainnet,
        chain_value(c) == chain_value(ChainId::Sepolia) <==> c == ChainId::Sepolia,
{
    lemma_chain_values_distinct();
}

/// Inverse law, tag side: a string that matches one variant's name, in any
/// case, matches no other variant's name, so tag lookup is unambiguous.
pub proof fn lemma_chain_tag_unambiguous(s: Seq<char>)
    ensures
        !(tag_matches(s, "mainnet"@) && tag_matches(s, "sepolia"@)),
{
    reveal_strlit("mainnet");
    reveal_strlit("sepolia");
    if tag_matches(s, "mainnet"@) && tag_matches(s, "sepolia"@) {
        assert(lower_u32(s[0] as u32) == "mainnet"@[0] as u32);
        assert(lower_u32(s[0] as u32) == "sepolia"@[0] as u32);
        assert('m' as u32 == 109 && 's' as u32 == 115);
        assert(false);
    }
}

/// The two chain constants are distinct values.
pub proof fn lemma_chain_values_distinct()
    ensures
        chain_value(ChainId::Mainnet) != chain_value(ChainId::Sepolia),
{
    crate::bignum::lemma_be_nat_bound(sn_main_bytes());
    crate::bignum::lemma_be_nat_first(sn_sepolia_bytes());
    crate::bignum::lemma_pow256_pos(9);
    assert(chain_value(ChainId::Sepolia) >= 0x53 * crate::bignum::pow256(9));
    assert(crate::bignum::pow256(9) >= crate::bignum::pow256(7)) by {
        crate::bignum::lemma_pow256_succ(7);
        crate::bignum::lemma_pow256_succ(8);
        crate::bignum::lemma_pow256_pos(7);
    }
}

} // verus!
