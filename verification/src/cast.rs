//! Text-level casting between the scalar field's representations: the
//! conversions that the command line exposes, each stated over the parsing
//! and rendering specifications of the field and the named results of the
//! hash and signature primitives.

use vstd::prelude::*;
use vstd::arithmetic::power2::pow2;
use vstd::utf8::{encode_utf8, is_ascii_chars};
use vstd::string::StringExecFns;
use crate::bignum::be_nat;
use crate::crypto::{
    curve_n, domain_hash, ecdsa_sign_of, ecdsa_verify_of, keccak_of, pair_hash, pedersen_of,
    pk_on_curve, s_inv_in_range, sign, verify, verify_degenerate, Signature, SignError,
    VerifyError,
};
use crate::field::{
    ascii_bytes_of, dec_chars_of, field_p, hex_digit_val, hex_render, is_hex_digit, no_null_hole,
    short_chars_of, spec_from_hex, spec_parse_digits, spec_short_string_ok, ParseError,
    ScalarField, ShortStringError,
};

verus! {

pub struct Cast {}

/// Stateless text-level conversions over field elements.
pub struct SimpleCast;

/// Why a cast failed: the text did not parse, a short string did not fit,
/// or a signature operation rejected its input.
#[derive(Clone, Copy, Debug, PartialEq, Eq, Structural)]
pub enum CastError {
    Parse(ParseError),
    ShortString(ShortStringError),
    Sign(SignError),
    Verify(VerifyError),
}

/// How a pair-hash argument is read: `0x`-prefixed text as a hexadecimal
/// element, any other text as a packed short ASCII tag.
pub open spec fn spec_hex_or_tag(s: Seq<char>) -> Result<nat, CastError> {
    if s.len() >= 2 && s[0] == '0' && s[1] == 'x' {
        match spec_parse_digits(true, s.skip(2)) {
            Ok(n) => Ok(n),
            Err(e) => Err(CastError::Parse(e)),
        }
    } else if !is_ascii_chars(s) {
        Err(CastError::ShortString(ShortStringError::NonAsciiCharacter))
    } else if s.len() > 31 {
        Err(CastError::ShortString(ShortStringError::TooLong))
    } else {
        Ok(be_nat(ascii_bytes_of(s)))
    }
}

/// The bytes denoted by an even run of hexadecimal digits, two digits per
/// byte.
pub open spec fn decoded_hex_bytes(s: Seq<char>) -> Seq<u8>
    decreases s.len(),
{
    if s.len() < 2 {
        Seq::<u8>::empty()
    } else {
        decoded_hex_bytes(s.drop_last().drop_last()).push(
            (hex_digit_val(s[s.len() - 2]) * 16 + hex_digit_val(s.last())) as u8,
        )
    }
}

/// The bytes that the domain hash is taken over: `0x`-prefixed text is
/// decoded from hexadecimal — an odd count of digits or a stray character
/// is malformed — and any other text hashes as its UTF-8 bytes.
pub open spec fn spec_keccak_input(s: Seq<char>) -> Result<Seq<u8>, ParseError> {
    if s.len() >= 2 && s[0] == '0' && s[1] == 'x' {
        if s.skip(2).len() % 2 != 0 || (exists|i: int|
            0 <= i < s.skip(2).len() && !is_hex_digit(s.skip(2)[i])) {
            Err(ParseError::Malformed)
        } else {
            Ok(decoded_hex_bytes(s.skip(2)))
        }
    } else {
        Ok(encode_utf8(s))
    }
}

/// Decodes the digits of `s` from position `start` on into bytes, two
/// digits each.
fn decode_hex_pairs(s: &str, start: usize) -> (res: Result<Vec<u8>, ParseError>)
    requires
        start as nat <= s@.len(),
    ensures
        ({
            let t = s@.skip(start as int);
            &&& (res is Ok) == (t.len() % 2 == 0 && (forall|i: int|
                0 <= i < t.len() ==> is_hex_digit(#[trigger] t[i])))
            &&& (res matches Ok(v) ==> v@ == decoded_hex_bytes(t))
            &&& (res matches Err(e) ==> e == ParseError::Malformed)
        }),
{
    let n = s.unicode_len();
    let ghost t = s@.skip(start as int);
    if (n - start) % 2 != 0 {
        return Err(ParseError::Malformed);
    }
    let mut out: Vec<u8> = Vec::new();
    let mut i: usize = start;
    proof {
        assert(t.take(0) =~= Seq::<char>::empty());
    }
    while i < n
        invariant
            start as nat <= s@.len(),
            n == s@.len(),
            start <= i <= n,
            (i - start) % 2 == 0,
            (n - start) % 2 == 0,
            t == s@.skip(start as int),
            forall|j: int| 0 <= j < i - start ==> is_hex_digit(#[trigger] t[j]),
            out@ == decoded_hex_bytes(t.take(i - start as int)),
        decreases n - i,
    {
        let c1 = s.get_char(i);
        let c2 = s.get_char(i + 1);
        let u1 = c1 as u32;
        let u2 = c2 as u32;
        let ok1 = (48 <= u1 && u1 <= 57) || (97 <= u1 && u1 <= 102) || (65 <= u1 && u1 <= 70);
        let ok2 = (48 <= u2 && u2 <= 57) || (97 <= u2 && u2 <= 102) || (65 <= u2 && u2 <= 70);
        if !ok1 || !ok2 {
            proof {
                assert(t[i - start as int] == s@[i as int]);
                assert(t[i + 1 - start as int] == s@[i + 1]);
                assert(!ok1 ==> !is_hex_digit(t[i - start as int]));
                assert(!ok2 ==> !is_hex_digit(t[i + 1 - start as int]));
            }
            return Err(ParseError::Malformed);
        }
        let d1: u32 = if 48 <= u1 && u1 <= 57 {
            u1 - 48
        } else if 97 <= u1 && u1 <= 102 {
            u1 - 87
        } else {
            u1 - 55
        };
        let d2: u32 = if 48 <= u2 && u2 <= 57 {
            u2 - 48
        } else if 97 <= u2 && u2 <= 102 {
            u2 - 87
        } else {
            u2 - 55
        };
        let b: u8 = (d1 * 16 + d2) as u8;
        out.push(b);
        proof {
            let k = i - start as int;
            assert(t[k] == s@[i as int]);
            assert(t[k + 1] == s@[i + 1]);
            assert(b as nat == hex_digit_val(t[k]) * 16 + hex_digit_val(t[k + 1]));
            assert(t.take(k + 2).drop_last().drop_last() =~= t.take(k));
            assert(t.take(k + 2).last() == t[k + 1]);
            assert(t.take(k + 2)[t.take(k + 2).len() - 2] == t[k]);
        }
        i = i + 2;
    }
    proof {
        assert(t.take(n - start as int) =~= t);
    }
    Ok(out)
}

/// Reads a pair-hash argument: hexadecimal behind a `0x` prefix, a packed
/// short ASCII tag otherwise.
fn parse_hex_or_tag(s: &str) -> (res: Result<ScalarField, CastError>)
    ensures
        ({
            match (res, spec_hex_or_tag(s@)) {
                (Ok(v), Ok(n)) => v@ == n,
                (Err(a), Err(b)) => a == b,
                _ => false,
            }
        }),
{
    let n = s.unicode_len();
    if n >= 2 && s.get_char(0) == '0' && s.get_char(1) == 'x' {
        match ScalarField::from_hex(s) {
            Ok(v) => Ok(v),
            Err(e) => Err(CastError::Parse(e)),
        }
    } else {
        match ScalarField::pack_ascii(s) {
            Ok(v) => Ok(v),
            Err(e) => Err(CastError::ShortString(e)),
        }
    }
}

impl SimpleCast {
    /// The zero address, as canonical hexadecimal.
    pub fn address_zero() -> (r: String)
        ensures
            r@ == hex_render(0),
    {
        ScalarField::zero().to_hex()
    }

    /// Re-renders a decimal element as hexadecimal.
    pub fn to_hex(dec: &str) -> (res: Result<String, ParseError>)
        ensures
            spec_parse_digits(false, dec@) matches Ok(n) ==> (res matches Ok(s) && s@
                == hex_render(n)),
            spec_parse_digits(false, dec@) matches Err(e) ==> (res matches Err(e2) && e2 == e),
    {
        match ScalarField::from_decimal(dec) {
            Ok(v) => Ok(v.to_hex()),
            Err(e) => Err(e),
        }
    }

    /// Re-renders a hexadecimal element as decimal.
    pub fn to_dec(hex: &str) -> (res: Result<String, ParseError>)
        ensures
            spec_from_hex(hex@) matches Ok(n) ==> (res matches Ok(s) && s@ == dec_chars_of(n)),
            spec_from_hex(hex@) matches Err(e) ==> (res matches Err(e2) && e2 == e),
    {
        match ScalarField::from_hex(hex) {
            Ok(v) => Ok(v.to_decimal()),
            Err(e) => Err(e),
        }
    }

    /// The domain-tagged hash of the input, rendered as hexadecimal:
    /// `0x`-prefixed input is hashed as the bytes it spells, other input as
    /// its UTF-8 bytes.
    pub fn keccak(data: &str) -> (res: Result<String, ParseError>)
        ensures
            spec_keccak_input(data@) matches Ok(bytes) ==> (res matches Ok(s) && s@ == hex_render(
                keccak_of(bytes),
            )),
            spec_keccak_input(data@) matches Err(e) ==> (res matches Err(e2) && e2 == e),
    {
        let n = data.unicode_len();
        let hash: ScalarField = if n >= 2 && data.get_char(0) == '0' && data.get_char(1) == 'x' {
            match decode_hex_pairs(data, 2) {
                Ok(bytes) => domain_hash(bytes.as_slice()),
                Err(e) => {
                    return Err(e);
                },
            }
        } else {
            let bytes = data.as_bytes_vec();
            domain_hash(bytes.as_slice())
        };
        Ok(hash.to_hex())
    }

    /// The Pedersen pair hash of two elements, each given as hexadecimal or
    /// as a short ASCII tag, rendered as hexadecimal.
    pub fn pedersen(x: &str, y: &str) -> (res: Result<String, CastError>)
        ensures
            ({
                let xr = spec_hex_or_tag(x@);
                let yr = spec_hex_or_tag(y@);
                &&& (xr is Err ==> (res matches Err(e2) && e2 == xr->Err_0))
                &&& ((xr is Ok && yr is Err) ==> (res matches Err(e2) && e2 == yr->Err_0))
                &&& ((xr is Ok && yr is Ok) ==> (res matches Ok(s) && s@ == hex_render(
                    pedersen_of(xr->Ok_0, yr->Ok_0),
                )))
            }),
    {
        let xv = match parse_hex_or_tag(x) {
            Ok(v) => v,
            Err(e) => {
                return Err(e);
            },
        };
        let yv = match parse_hex_or_tag(y) {
            Ok(v) => v,
            Err(e) => {
                return Err(e);
            },
        };
        Ok(pair_hash(&xv, &yv).to_hex())
    }

    /// The largest element, P − 1, in decimal.
    pub fn max_felt() -> (r: String)
        ensures
            r@ == dec_chars_of((field_p() - 1) as nat),
    {
        ScalarField::max_value().to_decimal()
    }

    /// The largest value of the signed reading, (P − 1) / 2, in decimal.
    pub fn max_signed_felt() -> (r: String)
        ensures
            r@ == dec_chars_of(((field_p() - 1) / 2) as nat),
    {
        let half = ScalarField::half_max();
        proof {
            assert((2 * half@) / 2 == half@) by (nonlinear_arith);
        }
        half.to_decimal()
    }

    /// The smallest value of the signed reading, −(P − 1) / 2, in decimal.
    pub fn min_signed_felt() -> (r: String)
        ensures
            r@ == seq!['-'] + dec_chars_of(((field_p() - 1) / 2) as nat),
    {
        let half = ScalarField::half_max();
        proof {
            assert((2 * half@) / 2 == half@) by (nonlinear_arith);
            reveal_strlit("-");
        }
        let digits = half.to_decimal();
        let prefix: String = "-".to_owned();
        let out = prefix.concat(digits.as_str());
        proof {
            assert(out@ =~= seq!['-'] + dec_chars_of(((field_p() - 1) / 2) as nat));
        }
        out
    }

    /// Packs a short ASCII string and renders the element as hexadecimal.
    pub fn str_to_felt(short_str: &str) -> (res: Result<String, ShortStringError>)
        ensures
            !is_ascii_chars(short_str@) ==> (res matches Err(e) && e
                == ShortStringError::NonAsciiCharacter),
            is_ascii_chars(short_str@) && short_str@.len() > 31 ==> (res matches Err(e) && e
                == ShortStringError::TooLong),
            is_ascii_chars(short_str@) && short_str@.len() <= 31 ==> (res matches Ok(s) && s@
                == hex_render(be_nat(ascii_bytes_of(short_str@)))),
    {
        match ScalarField::pack_ascii(short_str) {
            Ok(v) => Ok(v.to_hex()),
            Err(e) => Err(e),
        }
    }

    /// Reads a hexadecimal element back as the short ASCII string packed in
    /// it.
    pub fn from_utf8(felt: &str) -> (res: Result<String, CastError>)
        ensures
            spec_from_hex(felt@) matches Err(e) ==> (res matches Err(e2) && e2 == CastError::Parse(
                e,
            )),
            spec_from_hex(felt@) matches Ok(n) ==> (forall|b: Seq<u8>|
                b.len() == 32 && be_nat(b) == n ==> {
                    &&& (res is Ok) == spec_short_string_ok(b)
                    &&& (res matches Ok(s) ==> s@ == short_chars_of(b))
                    &&& (b[0] != 0 ==> (res matches Err(e) && e == CastError::ShortString(
                        ShortStringError::ValueOutOfRange,
                    )))
                    &&& (b[0] == 0 && !no_null_hole(b) ==> (res matches Err(e) && e
                        == CastError::ShortString(ShortStringError::UnexpectedNullTerminator)))
                }),
    {
        let v = match ScalarField::from_hex(felt) {
            Ok(v) => v,
            Err(e) => {
                return Err(CastError::Parse(e));
            },
        };
        let out = match v.to_short_string() {
            Ok(s) => Ok(s),
            Err(e) => Err(CastError::ShortString(e)),
        };
        proof {
            assert forall|b: Seq<u8>| b.len() == 32 && be_nat(b) == v@ implies b =~= v.repr() by {
                crate::bignum::lemma_be_nat_injective(b, v.repr());
            }
        }
        out
    }

    /// Signs a message hash, both key and hash given as hexadecimal. A key
    /// that is zero or not below the curve order is rejected.
    pub fn ecdsa_sign(private_key: &str, message_hash: &str) -> (res: Result<Signature, CastError>)
        ensures
            ({
                let kr = spec_from_hex(private_key@);
                let hr = spec_from_hex(message_hash@);
                let k = kr->Ok_0;
                let h = hr->Ok_0;
                &&& (kr is Err ==> (res matches Err(e2) && e2 == CastError::Parse(kr->Err_0)))
                &&& ((kr is Ok && hr is Err) ==> (res matches Err(e2) && e2 == CastError::Parse(
                    hr->Err_0,
                )))
                &&& ((kr is Ok && hr is Ok && (k == 0 || k >= curve_n())) ==> (res matches Err(
                    e,
                ) && e == CastError::Sign(SignError::InvalidKey)))
                &&& ((kr is Ok && hr is Ok && 0 < k < curve_n() && h >= pow2(251)) ==> (
                res matches Err(e) && e == CastError::Sign(SignError::InvalidMessageHash)))
                &&& ((kr is Ok && hr is Ok && 0 < k < curve_n() && h < pow2(251)) ==> (
                res matches Ok(sig) && sig.r@ == ecdsa_sign_of(k, h).0 && sig.s@ == ecdsa_sign_of(
                    k,
                    h,
                ).1))
            }),
    {
        let k = match ScalarField::from_hex(private_key) {
            Ok(v) => v,
            Err(e) => {
                return Err(CastError::Parse(e));
            },
        };
        let h = match ScalarField::from_hex(message_hash) {
            Ok(v) => v,
            Err(e) => {
                return Err(CastError::Parse(e));
            },
        };
        match sign(&k, &h) {
            Ok(sig) => Ok(sig),
            Err(e) => Err(CastError::Sign(e)),
        }
    }

    /// Verifies a signature, all four inputs given as hexadecimal; the
    /// outcome is that of `crypto::verify`, with parse failures reported
    /// first.
    pub fn ecdsa_verify(
        public_key: &str,
        message_hash: &str,
        signature_r: &str,
        signature_s: &str,
    ) -> (res: Result<bool, CastError>)
        ensures
            ({
                let pkr = spec_from_hex(public_key@);
                let hr = spec_from_hex(message_hash@);
                let rr = spec_from_hex(signature_r@);
                let sr = spec_from_hex(signature_s@);
                let pk = pkr->Ok_0;
                let h = hr->Ok_0;
                let r = rr->Ok_0;
                let s = sr->Ok_0;
                let parsed = pkr is Ok && hr is Ok && rr is Ok && sr is Ok;
                let in_range = h < pow2(251) && 0 < r < pow2(251) && 0 < s < pow2(251);
                &&& (pkr is Err ==> (res matches Err(e2) && e2 == CastError::Parse(pkr->Err_0)))
                &&& ((pkr is Ok && hr is Err) ==> (res matches Err(e2) && e2 == CastError::Parse(
                    hr->Err_0,
                )))
                &&& ((pkr is Ok && hr is Ok && rr is Err) ==> (res matches Err(e2) && e2
                    == CastError::Parse(rr->Err_0)))
                &&& ((pkr is Ok && hr is Ok && rr is Ok && sr is Err) ==> (res matches Err(e2)
                    && e2 == CastError::Parse(sr->Err_0)))
                &&& ((parsed && h >= pow2(251)) ==> (res matches Err(e) && e == CastError::Verify(
                    VerifyError::MessageHashOutOfRange,
                )))
                &&& ((parsed && h < pow2(251) && !(0 < r < pow2(251))) ==> (res matches Err(e)
                    && e == CastError::Verify(VerifyError::SignatureROutOfRange)))
                &&& ((parsed && h < pow2(251) && 0 < r < pow2(251) && !(0 < s < pow2(251))) ==> (
                res matches Err(e) && e == CastError::Verify(VerifyError::SignatureSOutOfRange)))
                &&& ((parsed && in_range && !pk_on_curve(pk)) ==> (res matches Err(e) && e
                    == CastError::Verify(VerifyError::InvalidPublicKey)))
                &&& ((parsed && in_range && pk_on_curve(pk) && verify_degenerate(pk, h, r)) ==> (
                res matches Ok(b) && b == false))
                &&& ((parsed && in_range && pk_on_curve(pk) && !verify_degenerate(pk, h, r)
                    && !s_inv_in_range(s)) ==> (res matches Err(e) && e == CastError::Verify(
                    VerifyError::SignatureSOutOfRange,
                )))
                &&& ((parsed && in_range && pk_on_curve(pk) && !verify_degenerate(pk, h, r)
                    && s_inv_in_range(s)) ==> (res matches Ok(b) && b == ecdsa_verify_of(
                    pk,
                    h,
                    r,
                    s,
                )))
            }),
    {
        let pk = match ScalarField::from_hex(public_key) {
            Ok(v) => v,
            Err(e) => {
                return Err(CastError::Parse(e));
            },
        };
        let h = match ScalarField::from_hex(message_hash) {
            Ok(v) => v,
            Err(e) => {
                return Err(CastError::Parse(e));
            },
        };
        let r = match ScalarField::from_hex(signature_r) {
            Ok(v) => v,
            Err(e) => {
                return Err(CastError::Parse(e));
            },
        };
        let s = match ScalarField::from_hex(signature_s) {
            Ok(v) => v,
            Err(e) => {
                return Err(CastError::Parse(e));
            },
        };
        let sig = Signature { r, s };
        match verify(&pk, &h, &sig) {
            Ok(b) => Ok(b),
            Err(e) => Err(CastError::Verify(e)),
        }
    }
}

} // verus!
