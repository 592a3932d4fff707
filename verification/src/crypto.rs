//! Cryptographic primitives of the chain: the Pedersen pair hash, the
//! domain-tagged Keccak hash, and ECDSA signing and verification over the
//! STARK curve.
//!
//! The curve arithmetic itself is done by the `starknet-core`,
//! `starknet-crypto` and `starknet-types-core` crates behind thin trusted
//! wrappers; what each call returns is named by an uninterpreted function of
//! its inputs, and everything around the calls is verified against those
//! names. Signing keys are accepted only in (0, n), where n is the curve
//! order, and verification tests its two curve points itself before the
//! upstream comparison, so that no input can reach the upstream aborts.

use vstd::prelude::*;
use vstd::arithmetic::power2::pow2;
use starknet_core::crypto::{EcdsaVerifyError, Signature as CurveSignature};
use starknet_core::types::Felt;
use starknet_types_core::curve::{AffinePoint, ProjectivePoint};
use crate::bignum::{be_lt, be_nat};
use crate::field::{field_p, ScalarField};

verus! {

/// An ECDSA signature over the STARK curve: the ordered pair (r, s).
#[derive(Debug)]
pub struct Signature {
    pub r: ScalarField,
    pub s: ScalarField,
}

/// Why a signing request was rejected before any curve work: the private
/// key is zero or not below the curve order, or the message hash is not
/// below 2^251.
#[derive(Clone, Copy, Debug, PartialEq, Eq, Structural)]
pub enum SignError {
    InvalidKey,
    InvalidMessageHash,
}

/// Why a verification request was structurally invalid; a well-formed but
/// wrong signature is a normal `false` result, not an error.
#[derive(Clone, Copy, Debug, PartialEq, Eq, Structural)]
pub enum VerifyError {
    MessageHashOutOfRange,
    InvalidPublicKey,
    SignatureROutOfRange,
    SignatureSOutOfRange,
}

/// The 32 big-endian bytes of the order n of the STARK curve's generator,
/// 0x0800000000000010ffffffffffffffffb781126dcae7b2321e66a241adc64d2f.
pub open spec fn curve_n_bytes() -> Seq<u8> {
    seq![
        0x08u8, 0x00u8, 0x00u8, 0x00u8, 0x00u8, 0x00u8, 0x00u8, 0x10u8, 0xffu8, 0xffu8, 0xffu8,
        0xffu8, 0xffu8, 0xffu8, 0xffu8, 0xffu8, 0xb7u8, 0x81u8, 0x12u8, 0x6du8, 0xcau8, 0xe7u8,
        0xb2u8, 0x32u8, 0x1eu8, 0x66u8, 0xa2u8, 0x41u8, 0xadu8, 0xc6u8, 0x4du8, 0x2fu8,
    ]
}

/// The order n of the STARK curve's generator: the valid private keys are
/// exactly (0, n).
pub open spec fn curve_n() -> nat {
    be_nat(curve_n_bytes())
}

pub uninterp spec fn pedersen_of(a: nat, b: nat) -> nat;

pub uninterp spec fn keccak_of(data: Seq<u8>) -> nat;

pub uninterp spec fn ecdsa_sign_of(key: nat, hash: nat) -> (nat, nat);

pub uninterp spec fn ecdsa_verify_of(key: nat, hash: nat, r: nat, s: nat) -> bool;

/// Whether a value is the x-coordinate of a point on the STARK curve: the
/// condition under which verification accepts a public key.
pub uninterp spec fn pk_on_curve(key: nat) -> bool;

/// Whether the inverse of `s` modulo the curve order is itself non-zero and
/// below 2^251: the range test verification applies to `s` after inverting.
pub uninterp spec fn s_inv_in_range(s: nat) -> bool;

/// The x-coordinate of k·G, where G is the curve's generator, or nothing
/// when k·G is the point at infinity.
pub uninterp spec fn gen_mul_x(k: nat) -> Option<nat>;

/// The x-coordinate of r·Q, where Q is a curve point whose x-coordinate is
/// `key` (either of the two; they share every scalar multiple's
/// x-coordinate), or nothing when r·Q is the point at infinity.
pub uninterp spec fn pk_mul_x(key: nat, r: nat) -> Option<nat>;

/// Whether the two points of the verification equation, h·G and r·Q, share
/// one x-coordinate or are both the identity. Exactly then would the
/// upstream comparison reach a point at infinity, so the library rejects
/// such a signature itself, before the call.
pub open spec fn verify_degenerate(key: nat, hash: nat, r: nat) -> bool {
    gen_mul_x(hash) == pk_mul_x(key, r)
}

/// Relies on `starknet_crypto::pedersen_hash` (through `starknet_core`): the
/// Pedersen hash of two field elements is a field element and depends on its
/// two arguments alone.
#[verifier::external_body]
fn pedersen_call(a: &ScalarField, b: &ScalarField) -> (r: ScalarField)
    ensures
        r@ == pedersen_of(a@, b@),
        r@ < field_p(),
{
    let af = Felt::from_bytes_be(&a.to_bytes_be().try_into().unwrap());
    let bf = Felt::from_bytes_be(&b.to_bytes_be().try_into().unwrap());
    let hash = starknet_core::crypto::pedersen_hash(&af, &bf);
    ScalarField::from_bytes_be(&hash.to_bytes_be()).unwrap()
}

/// Relies on `starknet_core::utils::starknet_keccak`: the Keccak-256 digest
/// of the input with its top six bits cleared, so the result lies below
/// 2^250; it depends on the input bytes alone.
#[verifier::external_body]
fn keccak_call(data: &[u8]) -> (r: ScalarField)
    ensures
        r@ == keccak_of(data@),
        r@ < pow2(250),
        r@ < field_p(),
{
    let hash = starknet_core::utils::starknet_keccak(data);
    ScalarField::from_bytes_be(&hash.to_bytes_be()).unwrap()
}

/// Relies on `starknet_core::crypto::ecdsa_sign`: deterministic RFC-6979
/// signing. For a key in (0, n) and a message hash below 2^251 it retries
/// seeds until it returns a signature, whose parts it checks to be non-zero
/// and below 2^251; the outcome depends on the key and the hash alone. A
/// key that is zero modulo n would retry forever, so the bounds exclude it.
#[verifier::external_body]
fn ecdsa_sign_call(private_key: &ScalarField, message_hash: &ScalarField) -> (sig: Signature)
    requires
        0 < private_key@ < curve_n(),
        message_hash@ < pow2(251),
    ensures
        sig.r@ == ecdsa_sign_of(private_key@, message_hash@).0,
        sig.s@ == ecdsa_sign_of(private_key@, message_hash@).1,
        0 < sig.r@ < pow2(251),
        0 < sig.s@ < pow2(251),
        sig.r@ < field_p(),
        sig.s@ < field_p(),
{
    let kf = Felt::from_bytes_be(&private_key.to_bytes_be().try_into().unwrap());
    let hf = Felt::from_bytes_be(&message_hash.to_bytes_be().try_into().unwrap());
    let es = starknet_core::crypto::ecdsa_sign(&kf, &hf).expect("message hash is in range");
    Signature {
        r: ScalarField::from_bytes_be(&es.r.to_bytes_be()).unwrap(),
        s: ScalarField::from_bytes_be(&es.s.to_bytes_be()).unwrap(),
    }
}

/// Relies on the STARK curve's scalar multiplication
/// (`starknet_types_core::curve`): the x-coordinate of k·G, or nothing when
/// k·G is the point at infinity; it depends on k alone.
#[verifier::external_body]
fn gen_mul_x_call(k: &ScalarField) -> (res: Option<ScalarField>)
    ensures
        (res is Some) == (gen_mul_x(k@) is Some),
        res matches Some(v) ==> (gen_mul_x(k@) matches Some(x) && v@ == x && v@ < field_p()),
{
    let kf = Felt::from_bytes_be(&k.to_bytes_be().try_into().unwrap());
    let g = AffinePoint::generator();
    let p = &ProjectivePoint::from_affine(g.x(), g.y()).unwrap() * kf;
    match p.to_affine() {
        Ok(a) => Some(ScalarField::from_bytes_be(&a.x().to_bytes_be()).unwrap()),
        Err(_) => None,
    }
}

/// Relies on `AffinePoint::new_from_x` and the curve's scalar
/// multiplication (`starknet_types_core::curve`): nothing when `pk` is not
/// on the curve — the same square-root test that verification applies to a
/// public key — and otherwise the x-coordinate of r·Q, or an empty inner
/// value when r·Q is the point at infinity.
#[verifier::external_body]
fn pk_mul_x_call(pk: &ScalarField, r: &ScalarField) -> (res: Option<Option<ScalarField>>)
    ensures
        (res is Some) == pk_on_curve(pk@),
        res matches Some(inner) ==> ((inner is Some) == (pk_mul_x(pk@, r@) is Some) && (
        inner matches Some(v) ==> (pk_mul_x(pk@, r@) matches Some(x) && v@ == x && v@ < field_p(
        )))),
{
    let pkf = Felt::from_bytes_be(&pk.to_bytes_be().try_into().unwrap());
    let rf = Felt::from_bytes_be(&r.to_bytes_be().try_into().unwrap());
    let q = match AffinePoint::new_from_x(&pkf, false) {
        Some(q) => q,
        None => return None,
    };
    let p = &ProjectivePoint::from_affine(q.x(), q.y()).unwrap() * rf;
    match p.to_affine() {
        Ok(a) => Some(Some(ScalarField::from_bytes_be(&a.x().to_bytes_be()).unwrap())),
        Err(_) => Some(None),
    }
}

/// Relies on `starknet_core::crypto::ecdsa_verify`: with the ranges of the
/// `requires` held, the public key on the curve and the two points of the
/// verification equation not degenerate, the call's unwraps cannot fire; it
/// then rejects an `s` whose modular inverse falls out of range, and
/// otherwise returns the signature's validity — a value that depends on the
/// arguments alone.
#[verifier::external_body]
fn ecdsa_verify_call(
    public_key: &ScalarField,
    message_hash: &ScalarField,
    sig_r: &ScalarField,
    sig_s: &ScalarField,
) -> (res: Result<bool, VerifyError>)
    requires
        message_hash@ < pow2(251),
        0 < sig_r@ < pow2(251),
        0 < sig_s@ < pow2(251),
        pk_on_curve(public_key@),
        !verify_degenerate(public_key@, message_hash@, sig_r@),
    ensures
        (res is Ok) == s_inv_in_range(sig_s@),
        res matches Ok(b) ==> b == ecdsa_verify_of(public_key@, message_hash@, sig_r@, sig_s@),
        res matches Err(e) ==> e == VerifyError::SignatureSOutOfRange,
{
    let kf = Felt::from_bytes_be(&public_key.to_bytes_be().try_into().unwrap());
    let hf = Felt::from_bytes_be(&message_hash.to_bytes_be().try_into().unwrap());
    let rf = Felt::from_bytes_be(&sig_r.to_bytes_be().try_into().unwrap());
    let sf = Felt::from_bytes_be(&sig_s.to_bytes_be().try_into().unwrap());
    match starknet_core::crypto::ecdsa_verify(&kf, &hf, &CurveSignature { r: rf, s: sf }) {
        Ok(b) => Ok(b),
        Err(EcdsaVerifyError::MessageHashOutOfRange) => Err(VerifyError::MessageHashOutOfRange),
        Err(EcdsaVerifyError::InvalidPublicKey) => Err(VerifyError::InvalidPublicKey),
        Err(EcdsaVerifyError::SignatureROutOfRange) => Err(VerifyError::SignatureROutOfRange),
        Err(EcdsaVerifyError::SignatureSOutOfRange) => Err(VerifyError::SignatureSOutOfRange),
    }
}

/// The 32-byte big-endian encoding of the curve order n, for the key-range
/// check.
fn curve_order_bytes() -> (v: Vec<u8>)
    ensures
        v@.len() == 32,
        be_nat(v@) == curve_n(),
{
    let v: Vec<u8> = vec![
        0x08u8, 0x00u8, 0x00u8, 0x00u8, 0x00u8, 0x00u8, 0x00u8, 0x10u8, 0xffu8, 0xffu8, 0xffu8,
        0xffu8, 0xffu8, 0xffu8, 0xffu8, 0xffu8, 0xb7u8, 0x81u8, 0x12u8, 0x6du8, 0xcau8, 0xe7u8,
        0xb2u8, 0x32u8, 0x1eu8, 0x66u8, 0xa2u8, 0x41u8, 0xadu8, 0xc6u8, 0x4du8, 0x2fu8,
    ];
    proof {
        assert(v@ =~= curve_n_bytes());
    }
    v
}

/// The Pedersen pair hash: a deterministic, collision-resistant binding of
/// two field elements into one.
pub fn pair_hash(a: &ScalarField, b: &ScalarField) -> (r: ScalarField)
    ensures
        r@ == pedersen_of(a@, b@),
        r@ < field_p(),
{
    pedersen_call(a, b)
}

/// The domain-tagged byte hash: Keccak-256 truncated into the field's
/// range, kept distinct from the curve-native pair hash.
pub fn domain_hash(input: &[u8]) -> (r: ScalarField)
    ensures
        r@ == keccak_of(input@),
        r@ < pow2(250),
{
    keccak_call(input)
}

/// Signs a message hash with a private key. A key that is zero or not below
/// the curve order n is rejected as `InvalidKey`, a hash at or above 2^251
/// as `InvalidMessageHash`; any other input is signed, deterministically.
pub fn sign(private_key: &ScalarField, message_hash: &ScalarField) -> (res: Result<
    Signature,
    SignError,
>)
    ensures
        private_key@ == 0 || private_key@ >= curve_n() ==> (res matches Err(e) && e
            == SignError::InvalidKey),
        0 < private_key@ < curve_n() && message_hash@ >= pow2(251) ==> (res matches Err(e) && e
            == SignError::InvalidMessageHash),
        0 < private_key@ < curve_n() && message_hash@ < pow2(251) ==> (res matches Ok(sig)
            && sig.r@ == ecdsa_sign_of(private_key@, message_hash@).0 && sig.s@ == ecdsa_sign_of(
            private_key@,
            message_hash@,
        ).1 && 0 < sig.r@ < pow2(251) && 0 < sig.s@ < pow2(251)),
{
    if private_key.is_zero() {
        return Err(SignError::InvalidKey);
    }
    let key_bytes = private_key.to_bytes_be();
    let order_bytes = curve_order_bytes();
    if !be_lt(&key_bytes, &order_bytes) {
        return Err(SignError::InvalidKey);
    }
    if !message_hash.below_pow2_251() {
        return Err(SignError::InvalidMessageHash);
    }
    Ok(ecdsa_sign_call(private_key, message_hash))
}

/// Verifies a signature against a public key and message hash. Inputs out
/// of the curve's ranges and a public key off the curve are errors; a
/// signature whose verification equation degenerates to the point at
/// infinity is rejected as `false`; an `s` whose modular inverse falls out
/// of range is an error; and otherwise the result is the signature's
/// validity.
pub fn verify(public_key: &ScalarField, message_hash: &ScalarField, sig: &Signature) -> (res:
    Result<bool, VerifyError>)
    ensures
        ({
            let pk = public_key@;
            let h = message_hash@;
            let r = sig.r@;
            let s = sig.s@;
            let in_range = h < pow2(251) && 0 < r < pow2(251) && 0 < s < pow2(251);
            &&& (h >= pow2(251) ==> res == Err::<bool, VerifyError>(
                VerifyError::MessageHashOutOfRange,
            ))
            &&& (h < pow2(251) && !(0 < r < pow2(251)) ==> res == Err::<bool, VerifyError>(
                VerifyError::SignatureROutOfRange,
            ))
            &&& (h < pow2(251) && 0 < r < pow2(251) && !(0 < s < pow2(251)) ==> res == Err::<
                bool,
                VerifyError,
            >(VerifyError::SignatureSOutOfRange))
            &&& (in_range && !pk_on_curve(pk) ==> res == Err::<bool, VerifyError>(
                VerifyError::InvalidPublicKey,
            ))
            &&& (in_range && pk_on_curve(pk) && verify_degenerate(pk, h, r) ==> res == Ok::<
                bool,
                VerifyError,
            >(false))
            &&& (in_range && pk_on_curve(pk) && !verify_degenerate(pk, h, r) && !s_inv_in_range(s)
                ==> res == Err::<bool, VerifyError>(VerifyError::SignatureSOutOfRange))
            &&& (in_range && pk_on_curve(pk) && !verify_degenerate(pk, h, r) && s_inv_in_range(s)
                ==> res == Ok::<bool, VerifyError>(ecdsa_verify_of(pk, h, r, s)))
        }),
{
    if !message_hash.below_pow2_251() {
        return Err(VerifyError::MessageHashOutOfRange);
    }
    if sig.r.is_zero() || !sig.r.below_pow2_251() {
        return Err(VerifyError::SignatureROutOfRange);
    }
    if sig.s.is_zero() || !sig.s.below_pow2_251() {
        return Err(VerifyError::SignatureSOutOfRange);
    }
    let rq = match pk_mul_x_call(public_key, &sig.r) {
        None => {
            return Err(VerifyError::InvalidPublicKey);
        },
        Some(inner) => inner,
    };
    let zg = gen_mul_x_call(message_hash);
    let degenerate: bool = match (zg, rq) {
        (None, None) => true,
        (Some(a), Some(b)) => a == b,
        _ => false,
    };
    if degenerate {
        return Ok(false);
    }
    ecdsa_verify_call(public_key, message_hash, &sig.r, &sig.s)
}

/// Determinism of the pair hash: two results of `pair_hash` on one and the
/// same pair of inputs are one and the same value.
pub proof fn lemma_pair_hash_deterministic(a: nat, b: nat, r1: nat, r2: nat)
    requires
        r1 == pedersen_of(a, b),
        r2 == pedersen_of(a, b),
    ensures
        r1 == r2,
{
}

} // verus!
