//! The scalar field of the target chain.
//!
//! A `ScalarField` is an integer modulo the fixed 251-bit prime
//! P = 2^251 + 17·2^192 + 1, held canonically as the unique representative in
//! [0, P). Values are created by parsing decimal or `0x`-prefixed hexadecimal
//! text, by decoding a 32-byte big-endian array, or by packing a short ASCII
//! tag; they are formatted back as minimal lowercase hexadecimal or as
//! decimal, and the parsers and formatters round-trip.

use vstd::prelude::*;
use vstd::arithmetic::power2::{pow2, lemma_pow2_adds, lemma2_to64};
use vstd::arithmetic::power::lemma_pow_multiplies;
use vstd::utf8::is_ascii_chars;
use vstd::slice::slice_to_vec;
use crate::bignum::{
    be_nat, pow256, be_lt, be_is_zero, be_mul_small_add, be_divmod_small, lemma_be_nat_bound,
    lemma_be_nat_first, lemma_be_nat_injective, lemma_be_nat_zero, lemma_be_nat_zero_prefix,
    lemma_pow256_pos,
};

verus! {

/// The prime modulus P of the scalar field.
pub open spec fn field_p() -> nat {
    (pow2(251) + 17 * pow2(192) + 1) as nat
}

/// Why a text or byte input was rejected: it is not written in the accepted
/// alphabet, or it denotes a magnitude at or above the prime P.
#[derive(Clone, Copy, Debug, PartialEq, Eq, Structural)]
pub enum ParseError {
    Malformed,
    OutOfRange,
}

/// Why a short ASCII tag could not be packed into a field element.
#[derive(Clone, Copy, Debug, PartialEq, Eq, Structural)]
pub enum ShortStringError {
    TooLong,
    NonAsciiCharacter,
    ValueOutOfRange,
    UnexpectedNullTerminator,
}

pub open spec fn is_dec_digit(c: char) -> bool {
    48 <= c as u32 <= 57
}

pub open spec fn is_hex_digit(c: char) -> bool {
    is_dec_digit(c) || 97 <= c as u32 <= 102 || 65 <= c as u32 <= 70
}

pub open spec fn dec_digit_val(c: char) -> nat {
    (c as u32 - 48) as nat
}

pub open spec fn hex_digit_val(c: char) -> nat {
    if is_dec_digit(c) {
        (c as u32 - 48) as nat
    } else if 97 <= c as u32 <= 102 {
        (c as u32 - 87) as nat
    } else {
        (c as u32 - 55) as nat
    }
}

/// Whether `c` is a digit of the decimal or of the hexadecimal alphabet.
pub open spec fn digit_ok(hex: bool, c: char) -> bool {
    if hex {
        is_hex_digit(c)
    } else {
        is_dec_digit(c)
    }
}

pub open spec fn digit_val(hex: bool, c: char) -> nat {
    if hex {
        hex_digit_val(c)
    } else {
        dec_digit_val(c)
    }
}

/// The number denoted by a digit string, most significant digit first.
pub open spec fn digits_nat(hex: bool, s: Seq<char>) -> nat
    decreases s.len(),
{
    if s.len() == 0 {
        0
    } else {
        (digits_nat(hex, s.drop_last()) * (if hex { 16nat } else { 10nat }) + digit_val(
            hex,
            s.last(),
        )) as nat
    }
}

pub open spec fn dec_nat(s: Seq<char>) -> nat {
    digits_nat(false, s)
}

pub open spec fn hex_nat(s: Seq<char>) -> nat {
    digits_nat(true, s)
}

/// What parsing a digit string yields: the string must be non-empty and hold
/// digits only, and the number it denotes must lie below P.
pub open spec fn spec_parse_digits(hex: bool, s: Seq<char>) -> Result<nat, ParseError> {
    if s.len() == 0 || (exists|i: int| 0 <= i < s.len() && !digit_ok(hex, s[i])) {
        Err(ParseError::Malformed)
    } else if digits_nat(hex, s) >= field_p() {
        Err(ParseError::OutOfRange)
    } else {
        Ok(digits_nat(hex, s))
    }
}

/// What `ScalarField::parse` yields: text starting with `0x` is read as
/// big-endian hexadecimal, any other text as unsigned decimal.
pub open spec fn spec_parse(s: Seq<char>) -> Result<nat, ParseError> {
    if s.len() >= 2 && s[0] == '0' && s[1] == 'x' {
        spec_parse_digits(true, s.skip(2))
    } else {
        spec_parse_digits(false, s)
    }
}

/// What `ScalarField::from_hex` yields: hexadecimal with an optional `0x`
/// prefix.
pub open spec fn spec_from_hex(s: Seq<char>) -> Result<nat, ParseError> {
    if s.len() >= 2 && s[0] == '0' && s[1] == 'x' {
        spec_parse_digits(true, s.skip(2))
    } else {
        spec_parse_digits(true, s)
    }
}

/// Agreement between an executable parse result and its specification.
pub open spec fn parse_agrees(r: Result<ScalarField, ParseError>, m: Result<
    nat,
    ParseError,
>) -> bool {
    &&& (r is Ok) == (m is Ok)
    &&& (r is Ok ==> r->Ok_0@ == m->Ok_0)
    &&& (r is Err ==> r->Err_0 == m->Err_0)
}

/// The lowercase hexadecimal digit character for a value below 16.
pub open spec fn hex_char(d: nat) -> char {
    if d < 10 {
        ((48 + d) as u8) as char
    } else {
        ((87 + d) as u8) as char
    }
}

/// The decimal digit character for a value below 10.
pub open spec fn dec_char(d: nat) -> char {
    ((48 + d) as u8) as char
}

/// The minimal lowercase hexadecimal rendering of a number, no prefix.
pub open spec fn hex_chars_of(n: nat) -> Seq<char>
    decreases n,
{
    if n < 16 {
        seq![hex_char(n)]
    } else {
        hex_chars_of(n / 16).push(hex_char(n % 16))
    }
}

/// The `0x`-prefixed minimal lowercase hexadecimal rendering of a number.
pub open spec fn hex_render(n: nat) -> Seq<char> {
    seq!['0', 'x'] + hex_chars_of(n)
}

/// The minimal decimal rendering of a number.
pub open spec fn dec_chars_of(n: nat) -> Seq<char>
    decreases n,
{
    if n < 10 {
        seq![dec_char(n)]
    } else {
        dec_chars_of(n / 10).push(dec_char(n % 10))
    }
}

/// The bytes of an ASCII character string, one byte per character.
pub open spec fn ascii_bytes_of(s: Seq<char>) -> Seq<u8> {
    s.map_values(|c: char| c as u8)
}

/// An element of the prime field: an integer in [0, P), stored as 32
/// big-endian bytes. The view of a value is the integer it denotes.
#[derive(Debug)]
pub struct ScalarField {
    bytes: Vec<u8>,
}

impl View for ScalarField {
    type V = nat;

    closed spec fn view(&self) -> nat {
        be_nat(self.bytes@)
    }
}

impl ScalarField {
    /// The canonical 32-byte big-endian representation.
    pub closed spec fn repr(&self) -> Seq<u8> {
        self.bytes@
    }

    #[verifier::type_invariant]
    spec fn inv(&self) -> bool {
        self.bytes@.len() == 32 && be_nat(self.bytes@) < field_p()
    }

    fn from_checked_bytes(bytes: Vec<u8>) -> (r: ScalarField)
        requires
            bytes@.len() == 32,
            be_nat(bytes@) < field_p(),
        ensures
            r@ == be_nat(bytes@),
            r.repr() == bytes@,
    {
        ScalarField { bytes }
    }

    /// The element zero.
    pub fn zero() -> (r: ScalarField)
        ensures
            r@ == 0,
    {
        let bytes: Vec<u8> = vec![0u8; 32];
        proof {
            assert(forall|i: int| 0 <= i < 32 ==> bytes@[i] == 0);
            lemma_be_nat_zero(bytes@);
            lemma_p_pos();
        }
        ScalarField { bytes }
    }

    /// The largest element, P − 1.
    pub fn max_value() -> (r: ScalarField)
        ensures
            r@ == field_p() - 1,
    {
        let mut bytes: Vec<u8> = vec![0u8; 32];
        bytes[0] = 8;
        bytes[7] = 0x11;
        proof {
            assert(forall|i: int| 0 <= i < 32 && i != 0 && i != 7 ==> bytes@[i] == 0);
            lemma_be_nat_sparse3(bytes@, 0, 7, 31);
            lemma_weights();
            crate::bignum::lemma_pow256_zero();
            lemma_p_pos();
        }
        ScalarField { bytes }
    }

    /// The element (P − 1) / 2, the largest value of the signed reading.
    pub fn half_max() -> (r: ScalarField)
        ensures
            2 * r@ + 1 == field_p(),
    {
        let mut bytes: Vec<u8> = vec![0u8; 32];
        bytes[0] = 4;
        bytes[7] = 8;
        bytes[8] = 0x80;
        proof {
            assert(forall|i: int| 0 <= i < 32 && i != 0 && i != 7 && i != 8 ==> bytes@[i] == 0);
            lemma_be_nat_sparse3(bytes@, 0, 7, 8);
            lemma_half_weights();
        }
        ScalarField { bytes }
    }

    /// Whether the element is zero.
    pub fn is_zero(&self) -> (r: bool)
        ensures
            r == (self@ == 0),
    {
        be_is_zero(&self.bytes)
    }

    /// Whether the element lies below 2^251, the bound that the curve's
    /// signature operations put on message hashes and signature parts.
    pub fn below_pow2_251(&self) -> (r: bool)
        ensures
            r == (self@ < pow2(251)),
    {
        proof {
            use_type_invariant(self);
        }
        let mut bound: Vec<u8> = vec![0u8; 32];
        bound[0] = 8;
        proof {
            assert(forall|i: int| 1 <= i < 32 ==> bound@[i] == 0);
            lemma_be_nat_first(bound@);
            assert(forall|i: int|
                0 <= i < bound@.drop_first().len() ==> #[trigger] bound@.drop_first()[i] == 0);
            lemma_be_nat_zero(bound@.drop_first());
            lemma_weights();
        }
        be_lt(&self.bytes, &bound)
    }

    /// Decodes a 32-byte big-endian array; the value must lie below P.
    pub fn from_bytes_be(bytes: &[u8]) -> (res: Result<ScalarField, ParseError>)
        requires
            bytes@.len() == 32,
        ensures
            be_nat(bytes@) < field_p() ==> (res matches Ok(v) && v@ == be_nat(bytes@)),
            be_nat(bytes@) >= field_p() ==> (res matches Err(e) && e == ParseError::OutOfRange),
    {
        let own: Vec<u8> = slice_to_vec(bytes);
        let pb = p_bytes();
        if be_lt(&own, &pb) {
            Ok(ScalarField::from_checked_bytes(own))
        } else {
            Err(ParseError::OutOfRange)
        }
    }

    /// Encodes the element as its canonical 32-byte big-endian array.
    pub fn to_bytes_be(&self) -> (r: Vec<u8>)
        ensures
            r@ == self.repr(),
            r@.len() == 32,
            be_nat(r@) == self@,
            self@ < field_p(),
    {
        proof {
            use_type_invariant(self);
        }
        let mut out: Vec<u8> = Vec::new();
        let mut i: usize = 0;
        while i < 32
            invariant
                self.bytes@.len() == 32,
                self.repr() == self.bytes@,
                0 <= i <= 32,
                out@ =~= self.bytes@.take(i as int),
            decreases 32 - i,
        {
            out.push(self.bytes[i]);
            i = i + 1;
        }
        proof {
            assert(out@ =~= self.bytes@);
        }
        out
    }

    /// Parses decimal text, or hexadecimal text marked by a `0x` prefix.
    pub fn parse(text: &str) -> (res: Result<ScalarField, ParseError>)
        ensures
            parse_agrees(res, spec_parse(text@)),
    {
        let n = text.unicode_len();
        if n >= 2 && text.get_char(0) == '0' && text.get_char(1) == 'x' {
            parse_radix(text, 2, true)
        } else {
            proof {
                assert(text@.skip(0) =~= text@);
            }
            parse_radix(text, 0, false)
        }
    }

    /// Parses unsigned decimal text alone.
    pub fn from_decimal(text: &str) -> (res: Result<ScalarField, ParseError>)
        ensures
            parse_agrees(res, spec_parse_digits(false, text@)),
    {
        proof {
            assert(text@.skip(0) =~= text@);
        }
        parse_radix(text, 0, false)
    }

    /// Parses hexadecimal text with an optional `0x` prefix.
    pub fn from_hex(text: &str) -> (res: Result<ScalarField, ParseError>)
        ensures
            parse_agrees(res, spec_from_hex(text@)),
    {
        let n = text.unicode_len();
        if n >= 2 && text.get_char(0) == '0' && text.get_char(1) == 'x' {
            parse_radix(text, 2, true)
        } else {
            proof {
                assert(text@.skip(0) =~= text@);
            }
            parse_radix(text, 0, true)
        }
    }

    /// Formats the element as `0x`-prefixed minimal lowercase hexadecimal.
    pub fn to_hex(&self) -> (r: String)
        ensures
            r@ == hex_render(self@),
    {
        proof {
            use_type_invariant(self);
        }
        let mut work = self.to_bytes_be();
        let mut rev_digits: Vec<char> = Vec::new();
        let ghost v0 = self@;
        if be_is_zero(&work) {
            let mut out: Vec<char> = Vec::new();
            out.push('0');
            out.push('x');
            out.push('0');
            proof {
                assert(out@ =~= hex_render(0));
            }
            return chars_to_string(&out);
        }
        while !be_is_zero(&work)
            invariant
                work@.len() == 32,
                be_nat(work@) != 0 ==> hex_chars_of(v0) =~= hex_chars_of(be_nat(work@))
                    + rev_digits@.reverse(),
                be_nat(work@) == 0 ==> hex_chars_of(v0) =~= rev_digits@.reverse(),
            decreases be_nat(work@),
        {
            let ghost wv = be_nat(work@);
            let ghost rd = rev_digits@;
            let d = be_divmod_small(&mut work, 16);
            let c: char = (if d < 10 {
                48 + (d as u8)
            } else {
                87 + (d as u8)
            }) as char;
            rev_digits.push(c);
            proof {
                assert(c == hex_char(wv % 16));
                assert(rd.push(c).reverse() =~= seq![c] + rd.reverse());
                if wv >= 16 {
                    assert(hex_chars_of(wv) == hex_chars_of(wv / 16).push(hex_char(wv % 16)));
                    assert(hex_chars_of(wv / 16).push(c) + rd.reverse() =~= hex_chars_of(wv / 16)
                        + (seq![c] + rd.reverse()));
                } else {
                    assert(hex_chars_of(wv) =~= seq![c]);
                    assert(seq![c] + rd.reverse() =~= rd.push(c).reverse());
                }
            }
        }
        let mut out: Vec<char> = Vec::new();
        out.push('0');
        out.push('x');
        let total = rev_digits.len();
        let mut j: usize = total;
        while j > 0
            invariant
                total == rev_digits@.len(),
                0 <= j <= total,
                out@.len() == 2 + (total - j),
                out@[0] == '0' && out@[1] == 'x',
                forall|k: int| 2 <= k < out@.len() ==> out@[k] == rev_digits@[total - (k - 2) - 1],
            decreases j,
        {
            j = j - 1;
            out.push(rev_digits[j]);
        }
        proof {
            assert(out@ =~= seq!['0', 'x'] + rev_digits@.reverse());
            assert(out@ =~= hex_render(v0));
        }
        chars_to_string(&out)
    }

    /// Formats the element as minimal decimal.
    pub fn to_decimal(&self) -> (r: String)
        ensures
            r@ == dec_chars_of(self@),
    {
        proof {
            use_type_invariant(self);
        }
        let mut work = self.to_bytes_be();
        let mut rev_digits: Vec<char> = Vec::new();
        let ghost v0 = self@;
        if be_is_zero(&work) {
            let mut out: Vec<char> = Vec::new();
            out.push('0');
            proof {
                assert(out@ =~= dec_chars_of(0));
            }
            return chars_to_string(&out);
        }
        while !be_is_zero(&work)
            invariant
                work@.len() == 32,
                be_nat(work@) != 0 ==> dec_chars_of(v0) =~= dec_chars_of(be_nat(work@))
                    + rev_digits@.reverse(),
                be_nat(work@) == 0 ==> dec_chars_of(v0) =~= rev_digits@.reverse(),
            decreases be_nat(work@),
        {
            let ghost wv = be_nat(work@);
            let ghost rd = rev_digits@;
            let d = be_divmod_small(&mut work, 10);
            let c: char = (48 + (d as u8)) as char;
            rev_digits.push(c);
            proof {
                assert(c == dec_char(wv % 10));
                assert(rd.push(c).reverse() =~= seq![c] + rd.reverse());
                if wv >= 10 {
                    assert(dec_chars_of(wv) == dec_chars_of(wv / 10).push(dec_char(wv % 10)));
                    assert(dec_chars_of(wv / 10).push(c) + rd.reverse() =~= dec_chars_of(wv / 10)
                        + (seq![c] + rd.reverse()));
                } else {
                    assert(dec_chars_of(wv) =~= seq![c]);
                    assert(seq![c] + rd.reverse() =~= rd.push(c).reverse());
                }
            }
        }
        let total = rev_digits.len();
        let mut out: Vec<char> = Vec::new();
        let mut j: usize = total;
        while j > 0
            invariant
                total == rev_digits@.len(),
                0 <= j <= total,
                out@.len() == total - j,
                forall|k: int| 0 <= k < out@.len() ==> out@[k] == rev_digits@[total - k - 1],
            decreases j,
        {
            j = j - 1;
            out.push(rev_digits[j]);
        }
        proof {
            assert(out@ =~= rev_digits@.reverse());
            assert(out@ =~= dec_chars_of(v0));
        }
        chars_to_string(&out)
    }

    /// Packs a short ASCII tag into a field element: the tag's bytes become
    /// the low bytes of the 32-byte big-endian layout, high bytes zero.
    pub fn pack_ascii(tag: &str) -> (res: Result<ScalarField, ShortStringError>)
        ensures
            !is_ascii_chars(tag@) ==> (res matches Err(e) && e == ShortStringError::NonAsciiCharacter),
            is_ascii_chars(tag@) && tag@.len() > 31 ==> (res matches Err(e) && e
                == ShortStringError::TooLong),
            is_ascii_chars(tag@) && tag@.len() <= 31 ==> (res matches Ok(v) && v@ == be_nat(
                ascii_bytes_of(tag@),
            )),
    {
        let n = text_len_and_ascii(tag);
        match n {
            None => Err(ShortStringError::NonAsciiCharacter),
            Some(len) => {
                if len > 31 {
                    Err(ShortStringError::TooLong)
                } else {
                    let pad: usize = 32 - len;
                    let mut bytes: Vec<u8> = vec![0u8; pad];
                    let mut i: usize = 0;
                    while i < len
                        invariant
                            len == tag@.len(),
                            is_ascii_chars(tag@),
                            0 <= i <= len <= 31,
                            bytes@.len() == 32 - len + i,
                            forall|j: int| 0 <= j < 32 - len ==> bytes@[j] == 0,
                            forall|j: int|
                                0 <= j < i ==> bytes@[32 - len + j] == tag@[j] as u8,
                        decreases len - i,
                    {
                        let c = tag.get_char(i);
                        bytes.push(c as u8);
                        i = i + 1;
                    }
                    proof {
                        assert(bytes@.skip((32 - len) as int) =~= ascii_bytes_of(tag@));
                        lemma_be_nat_zero_prefix(bytes@, (32 - len) as int);
                        lemma_be_nat_bound(ascii_bytes_of(tag@));
                        lemma_tag_bound(tag@.len());
                    }
                    Ok(ScalarField::from_checked_bytes(bytes))
                }
            },
        }
    }

    /// Unpacks the element as a short string: leading zero bytes are dropped
    /// and every remaining byte becomes one character. The top byte must be
    /// zero, and no zero byte may follow a non-zero one.
    pub fn to_short_string(&self) -> (res: Result<String, ShortStringError>)
        ensures
            res matches Ok(s) ==> s@ =~= short_chars_of(self.repr()),
            (res is Ok) == spec_short_string_ok(self.repr()),
            self.repr()[0] != 0 ==> (res matches Err(e) && e == ShortStringError::ValueOutOfRange),
            self.repr()[0] == 0 && !no_null_hole(self.repr()) ==> (res matches Err(e) && e
                == ShortStringError::UnexpectedNullTerminator),
            self.repr().len() == 32 && be_nat(self.repr()) == self@,
    {
        proof {
            use_type_invariant(self);
        }
        let bytes = self.to_bytes_be();
        if bytes[0] > 0 {
            return Err(ShortStringError::ValueOutOfRange);
        }
        let mut chars: Vec<char> = Vec::new();
        let mut i: usize = 0;
        while i < 32
            invariant
                bytes@.len() == 32,
                bytes@ == self.repr(),
                bytes@[0] == 0,
                0 <= i <= 32,
                chars@ =~= short_chars_of(bytes@.take(i as int)),
                no_null_hole(bytes@.take(i as int)),
            decreases 32 - i,
        {
            let b = bytes[i];
            proof {
                assert(bytes@.take(i + 1).drop_last() =~= bytes@.take(i as int));
                assert(bytes@.take(i + 1).last() == bytes@[i as int]);
            }
            if b == 0 {
                if chars.len() > 0 {
                    proof {
                        lemma_short_chars_empty(bytes@.take(i as int));
                        let j = choose|j: int|
                            0 <= j < i && bytes@.take(i as int)[j] != 0;
                        assert(bytes@[j] != 0 && bytes@[i as int] == 0);
                        assert(!no_null_hole(bytes@));
                    }
                    return Err(ShortStringError::UnexpectedNullTerminator);
                }
                proof {
                    lemma_short_chars_empty(bytes@.take(i as int));
                    assert(no_null_hole(bytes@.take(i + 1)));
                }
            } else {
                chars.push(b as char);
                proof {
                    assert(no_null_hole(bytes@.take(i + 1)));
                }
            }
            i = i + 1;
        }
        proof {
            assert(bytes@.take(32) =~= bytes@);
        }
        Ok(chars_to_string(&chars))
    }
}

/// Structural equality of elements is equality of their values: the
/// representation is canonical.
impl PartialEq for ScalarField {
    fn eq(&self, other: &ScalarField) -> (r: bool)
    {
        proof {
            use_type_invariant(self);
            use_type_invariant(other);
            if self@ == other@ {
                lemma_be_nat_injective(self.bytes@, other.bytes@);
            }
        }
        let mut i: usize = 0;
        while i < 32
            invariant
                self.bytes@.len() == 32,
                other.bytes@.len() == 32,
                self@ == other@ ==> self.bytes@ == other.bytes@,
                0 <= i <= 32,
                forall|j: int| 0 <= j < i ==> self.bytes@[j] == other.bytes@[j],
            decreases 32 - i,
        {
            if self.bytes[i] != other.bytes[i] {
                return false;
            }
            i = i + 1;
        }
        proof {
            assert(self.bytes@ =~= other.bytes@);
        }
        true
    }
}

impl vstd::std_specs::cmp::PartialEqSpecImpl for ScalarField {
    open spec fn obeys_eq_spec() -> bool {
        true
    }

    open spec fn eq_spec(&self, other: &ScalarField) -> bool {
        self@ == other@
    }
}

/// The characters read out of a short-string byte array: one character per
/// byte, zero bytes skipped.
pub open spec fn short_chars_of(s: Seq<u8>) -> Seq<char>
    decreases s.len(),
{
    if s.len() == 0 {
        Seq::<char>::empty()
    } else if s.last() == 0 {
        short_chars_of(s.drop_last())
    } else {
        short_chars_of(s.drop_last()).push(s.last() as char)
    }
}

/// Whether every zero byte stands before every non-zero byte.
pub open spec fn no_null_hole(s: Seq<u8>) -> bool {
    forall|i: int, j: int| 0 <= i < j < s.len() && s[i] != 0 ==> s[j] != 0
}

/// A short-string reading is empty exactly when every byte is zero.
proof fn lemma_short_chars_empty(s: Seq<u8>)
    ensures
        (short_chars_of(s).len() == 0) <==> (forall|i: int| 0 <= i < s.len() ==> s[i] == 0),
        short_chars_of(s).len() != 0 ==> exists|i: int| 0 <= i < s.len() && s[i] != 0,
    decreases s.len(),
{
    if s.len() > 0 {
        let t = s.drop_last();
        lemma_short_chars_empty(t);
        assert(forall|i: int| 0 <= i < s.len() - 1 ==> #[trigger] t[i] == s[i]);
        if s.last() == 0 {
            if short_chars_of(s).len() == 0 {
                assert(forall|i: int| 0 <= i < s.len() ==> s[i] == 0) by {
                    assert(forall|i: int| 0 <= i < s.len() - 1 ==> #[trigger] s[i] == t[i]);
                }
            }
        }
    }
}

/// Whether the short-string reading of a 32-byte array succeeds: the top
/// byte is zero and no zero byte follows a non-zero one.
pub open spec fn spec_short_string_ok(s: Seq<u8>) -> bool {
    s.len() == 32 && s[0] == 0 && no_null_hole(s)
}

/// Builds a `String` from a character sequence.
///
/// Relies on `core::iter::Iterator::collect` for `String`: it concatenates
/// the characters in order.
#[verifier::external_body]
pub(crate) fn chars_to_string(v: &Vec<char>) -> (s: String)
    ensures
        s@ == v@,
{
    v.iter().collect()
}

/// Measures a string and reports whether it is all-ASCII, in one pass.
fn text_len_and_ascii(s: &str) -> (r: Option<usize>)
    ensures
        r matches Some(n) ==> n == s@.len() && is_ascii_chars(s@),
        r is None ==> !is_ascii_chars(s@),
{
    let n = s.unicode_len();
    if s.is_ascii() {
        Some(n)
    } else {
        None
    }
}

spec fn radix_of(hex: bool) -> nat {
    if hex {
        16
    } else {
        10
    }
}

/// A digit string's value only grows as more digits follow.
proof fn lemma_digits_nat_prefix(hex: bool, s: Seq<char>, k: int)
    requires
        0 <= k <= s.len(),
    ensures
        digits_nat(hex, s) >= digits_nat(hex, s.take(k)),
    decreases s.len() - k,
{
    if k == s.len() {
        assert(s.take(k) =~= s);
    } else {
        lemma_digits_nat_prefix(hex, s, k + 1);
        assert(s.take(k + 1).drop_last() =~= s.take(k));
        let a = digits_nat(hex, s.take(k));
        assert(digits_nat(hex, s.take(k + 1)) >= a * radix_of(hex)) by {
            assert(digits_nat(hex, s.take(k + 1)) == (a * radix_of(hex) + digit_val(
                hex,
                s.take(k + 1).last(),
            )) as nat);
        }
        assert(a * radix_of(hex) >= a) by (nonlinear_arith)
            requires
                radix_of(hex) >= 10,
                a >= 0,
        ;
    }
}

/// Parses the digits of `s` from position `start` on, in the given radix.
fn parse_radix(s: &str, start: usize, hex: bool) -> (res: Result<ScalarField, ParseError>)
    requires
        start as nat <= s@.len(),
    ensures
        parse_agrees(res, spec_parse_digits(hex, s@.skip(start as int))),
{
    let n = s.unicode_len();
    let ghost tail = s@.skip(start as int);
    if start >= n {
        return Err(ParseError::Malformed);
    }
    // every character must be a digit of the radix
    let mut i: usize = start;
    while i < n
        invariant
            start as nat <= s@.len(),
            n == s@.len(),
            start <= i <= n,
            tail == s@.skip(start as int),
            forall|j: int| start <= j < i ==> digit_ok(hex, s@[j]),
        decreases n - i,
    {
        let c = s.get_char(i);
        let u = c as u32;
        let ok = (48 <= u && u <= 57) || (hex && ((97 <= u && u <= 102) || (65 <= u && u <= 70)));
        if !ok {
            proof {
                assert(tail[i - start as int] == s@[i as int]);
                assert(!digit_ok(hex, tail[i - start as int]));
            }
            return Err(ParseError::Malformed);
        }
        i = i + 1;
    }
    proof {
        assert(forall|j: int| 0 <= j < tail.len() ==> digit_ok(hex, #[trigger] tail[j])) by {
            assert(forall|j: int|
                0 <= j < tail.len() ==> #[trigger] tail[j] == s@[j + start as int]);
        }
    }
    // accumulate the digits into a 32-byte big-endian value
    let radix: u16 = if hex {
        16
    } else {
        10
    };
    let mut acc: Vec<u8> = vec![0u8; 32];
    let mut i: usize = start;
    proof {
        lemma_be_nat_zero(acc@);
        assert(tail.take(0) =~= Seq::<char>::empty());
    }
    while i < n
        invariant
            start as nat <= s@.len(),
            n == s@.len(),
            start <= i <= n,
            tail == s@.skip(start as int),
            forall|j: int| 0 <= j < tail.len() ==> digit_ok(hex, #[trigger] tail[j]),
            radix == radix_of(hex),
            acc@.len() == 32,
            be_nat(acc@) == digits_nat(hex, tail.take(i - start as int)),
        decreases n - i,
    {
        let c = s.get_char(i);
        let u = c as u32;
        proof {
            assert(tail[i - start as int] == s@[i as int]);
            assert(digit_ok(hex, tail[i - start as int]));
        }
        let d: u16 = if 48 <= u && u <= 57 {
            (u - 48) as u16
        } else if 97 <= u && u <= 102 {
            (u - 87) as u16
        } else {
            (u - 55) as u16
        };
        proof {
            assert(d as nat == digit_val(hex, tail[i - start as int]));
        }
        let overflow = be_mul_small_add(&mut acc, radix, d);
        proof {
            let k = i - start as int;
            assert(tail.take(k + 1).drop_last() =~= tail.take(k));
            assert(tail.take(k + 1).last() == tail[k]);
            assert(digits_nat(hex, tail.take(k + 1)) == (digits_nat(hex, tail.take(k)) * radix_of(
                hex,
            ) + digit_val(hex, tail[k])) as nat);
        }
        if overflow {
            proof {
                let k = i - start as int;
                lemma_digits_nat_prefix(hex, tail, k + 1);
                lemma_p_below_pow256_32();
            }
            return Err(ParseError::OutOfRange);
        }
        i = i + 1;
    }
    proof {
        assert(tail.take(n - start as int) =~= tail);
    }
    let pb = p_bytes();
    if be_lt(&acc, &pb) {
        Ok(ScalarField::from_checked_bytes(acc))
    } else {
        Err(ParseError::OutOfRange)
    }
}

/// The value of a 32-byte string that is zero outside three positions.
proof fn lemma_be_nat_sparse3(s: Seq<u8>, a: int, b: int, c: int)
    requires
        s.len() == 32,
        0 <= a < b < c < 32,
        forall|i: int| 0 <= i < 32 && i != a && i != b && i != c ==> s[i] == 0,
    ensures
        be_nat(s) == s[a] * pow256((31 - a) as nat) + s[b] * pow256((31 - b) as nat) + s[c]
            * pow256((31 - c) as nat),
{
    lemma_be_nat_zero_prefix(s, a);
    lemma_be_nat_first(s.skip(a));
    assert(s.skip(a).first() == s[a]);
    assert(s.skip(a).drop_first() =~= s.skip(a + 1));
    let t = s.skip(a + 1);
    assert(forall|i: int| 0 <= i < b - a - 1 ==> t[i] == 0);
    lemma_be_nat_zero_prefix(t, b - a - 1);
    assert(t.skip(b - a - 1) =~= s.skip(b));
    lemma_be_nat_first(s.skip(b));
    assert(s.skip(b).first() == s[b]);
    assert(s.skip(b).drop_first() =~= s.skip(b + 1));
    let u = s.skip(b + 1);
    assert(forall|i: int| 0 <= i < c - b - 1 ==> u[i] == 0);
    lemma_be_nat_zero_prefix(u, c - b - 1);
    assert(u.skip(c - b - 1) =~= s.skip(c));
    lemma_be_nat_first(s.skip(c));
    assert(s.skip(c).first() == s[c]);
    assert(s.skip(c).drop_first() =~= s.skip(c + 1));
    let w = s.skip(c + 1);
    assert(forall|i: int| 0 <= i < w.len() ==> w[i] == 0);
    lemma_be_nat_zero(w);
    assert(s.skip(a).len() == 32 - a);
    assert(s.skip(b).len() == 32 - b);
    assert(s.skip(c).len() == 32 - c);
}

/// `256^n` is `2^(8n)`.
proof fn lemma_pow256_is_pow2(n: nat)
    ensures
        pow256(n) == pow2(8 * n),
{
    vstd::arithmetic::power::lemma_pow_positive(256, n);
    vstd::arithmetic::power::lemma_pow_positive(2, 8 * n);
    vstd::arithmetic::power::lemma_pow_positive(2, 8);
    lemma2_to64();
    lemma_pow_multiplies(2, 8, n);
    assert(vstd::arithmetic::power::pow(2, 8) == 256);
}

/// The byte weights that the field's constants stand on.
proof fn lemma_weights()
    ensures
        8 * pow256(31) == pow2(251),
        0x11 * pow256(24) == 17 * pow2(192),
        pow256(24) == pow2(192),
{
    lemma_pow256_is_pow2(31);
    lemma_pow256_is_pow2(24);
    lemma2_to64();
    assert(pow2(3) == 8);
    lemma_pow2_adds(3, 248);
}

/// The byte weights of the half-way constant (P − 1) / 2.
proof fn lemma_half_weights()
    ensures
        2 * (4 * pow256(31) + 8 * pow256(24) + 0x80 * pow256(23)) + 1 == field_p(),
{
    lemma_pow256_is_pow2(31);
    lemma_pow256_is_pow2(24);
    lemma_pow256_is_pow2(23);
    lemma2_to64();
    assert(pow2(3) == 8 && pow2(2) == 4 && pow2(7) == 0x80 && pow2(4) == 16 && pow2(1) == 2);
    lemma_pow2_adds(2, 248);
    lemma_pow2_adds(1, 250);
    lemma_pow2_adds(3, 192);
    lemma_pow2_adds(1, 195);
    lemma_pow2_adds(7, 184);
    lemma_pow2_adds(1, 191);
    lemma_pow2_adds(4, 192);
    assert(2 * pow2(250) == pow2(251));
    assert(2 * (8 * pow2(192)) == pow2(196));
    assert(2 * (0x80 * pow2(184)) == pow2(192));
    assert(pow2(196) + pow2(192) == 17 * pow2(192));
}

proof fn lemma_p_pos()
    ensures
        field_p() >= 1,
{
    vstd::arithmetic::power2::lemma_pow2_pos(251);
    vstd::arithmetic::power2::lemma_pow2_pos(192);
}

/// P fits in 32 bytes.
proof fn lemma_p_below_pow256_32()
    ensures
        field_p() < pow256(32),
{
    lemma_pow256_is_pow2(32);
    lemma_pow2_adds(251, 5);
    lemma_pow2_adds(192, 64);
    vstd::arithmetic::power2::lemma_pow2_pos(251);
    vstd::arithmetic::power2::lemma_pow2_pos(192);
    vstd::arithmetic::power2::lemma_pow2_pos(64);
    lemma2_to64();
    assert(pow2(5) == 32);
    assert(pow2(256) == pow2(251) * 32);
    assert(pow2(251) >= 17 * pow2(192) + 1) by {
        lemma_pow2_adds(192, 59);
        vstd::arithmetic::power2::lemma_pow2_pos(59);
        assert(pow2(59) >= 18) by {
            lemma2_to64();
        }
        assert(pow2(251) == pow2(192) * pow2(59));
        assert(pow2(192) * pow2(59) >= pow2(192) * 18) by (nonlinear_arith)
            requires
                pow2(59) >= 18,
                pow2(192) >= 1,
        ;
    }
}

/// The 32-byte big-endian encoding of P, for range checks.
fn p_bytes() -> (v: Vec<u8>)
    ensures
        v@.len() == 32,
        be_nat(v@) == field_p(),
{
    let mut v: Vec<u8> = vec![0u8; 32];
    v[0] = 8;
    v[7] = 0x11;
    v[31] = 1;
    proof {
        assert(forall|i: int| 0 <= i < 32 && i != 0 && i != 7 && i != 31 ==> v@[i] == 0);
        lemma_be_nat_sparse3(v@, 0, 7, 31);
        lemma_weights();
        crate::bignum::lemma_pow256_zero();
    }
    v
}

/// Packing at most 31 tag bytes leaves the value far below P.
proof fn lemma_tag_bound(len: nat)
    requires
        len <= 31,
    ensures
        pow256(len) < field_p(),
{
    lemma_pow256_is_pow2(len);
    lemma_pow256_is_pow2(31);
    vstd::arithmetic::power2::lemma_pow2_strictly_increases(8 * len, 251)
        ;
    vstd::arithmetic::power2::lemma_pow2_pos(192);
}


/// A hexadecimal digit character carries its digit's value.
proof fn lemma_hex_char_val(d: nat)
    requires
        d < 16,
    ensures
        is_hex_digit(hex_char(d)),
        hex_digit_val(hex_char(d)) == d,
{
    if d < 10 {
        assert(hex_char(d) as u32 == 48 + d);
    } else {
        assert(hex_char(d) as u32 == 87 + d);
    }
}

/// A decimal digit character carries its digit's value.
proof fn lemma_dec_char_val(d: nat)
    requires
        d < 10,
    ensures
        is_dec_digit(dec_char(d)),
        dec_digit_val(dec_char(d)) == d,
{
    assert(dec_char(d) as u32 == 48 + d);
}

/// The hexadecimal rendering of a number is a non-empty digit string that
/// denotes the number itself.
proof fn lemma_hex_chars_wf(n: nat)
    ensures
        hex_chars_of(n).len() >= 1,
        forall|i: int|
            0 <= i < hex_chars_of(n).len() ==> is_hex_digit(#[trigger] hex_chars_of(n)[i]),
        hex_nat(hex_chars_of(n)) == n,
    decreases n,
{
    let h = hex_chars_of(n);
    if n < 16 {
        lemma_hex_char_val(n);
        assert(h.drop_last() =~= Seq::<char>::empty());
    } else {
        lemma_hex_chars_wf(n / 16);
        lemma_hex_char_val(n % 16);
        assert(h.drop_last() =~= hex_chars_of(n / 16));
        assert(h.last() == hex_char(n % 16));
        assert(digits_nat(true, h) == (digits_nat(true, h.drop_last()) * 16 + hex_digit_val(
            h.last(),
        )) as nat);
        vstd::arithmetic::div_mod::lemma_fundamental_div_mod(n as int, 16);
    }
}

/// The decimal rendering of a number is a non-empty digit string that
/// denotes the number itself.
proof fn lemma_dec_chars_wf(n: nat)
    ensures
        dec_chars_of(n).len() >= 1,
        forall|i: int|
            0 <= i < dec_chars_of(n).len() ==> is_dec_digit(#[trigger] dec_chars_of(n)[i]),
        dec_nat(dec_chars_of(n)) == n,
    decreases n,
{
    let h = dec_chars_of(n);
    if n < 10 {
        lemma_dec_char_val(n);
        assert(h.drop_last() =~= Seq::<char>::empty());
    } else {
        lemma_dec_chars_wf(n / 10);
        lemma_dec_char_val(n % 10);
        assert(h.drop_last() =~= dec_chars_of(n / 10));
        assert(h.last() == dec_char(n % 10));
        assert(digits_nat(false, h) == (digits_nat(false, h.drop_last()) * 10 + dec_digit_val(
            h.last(),
        )) as nat);
        vstd::arithmetic::div_mod::lemma_fundamental_div_mod(n as int, 10);
    }
}

/// Byte round trip: a 32-byte array that denotes a value below P is exactly
/// the array that encoding that value yields again. With `from_bytes_be`'s
/// and `to_bytes_be`'s contracts this says
/// `from_bytes_be(b).to_bytes_be() == b`.
pub proof fn lemma_bytes_round_trip(b: Seq<u8>, v: nat, out: Seq<u8>)
    requires
        b.len() == 32,
        be_nat(b) < field_p(),
        v == be_nat(b),
        out.len() == 32,
        be_nat(out) == v,
    ensures
        out =~= b,
{
    lemma_be_nat_injective(out, b);
}

/// Text round trip, hexadecimal: parsing the `0x`-prefixed hexadecimal
/// rendering of any value below P yields that value back, through `parse`
/// as well as through `from_hex`.
pub proof fn lemma_parse_hex_round_trip(n: nat)
    requires
        n < field_p(),
    ensures
        spec_parse(hex_render(n)) == Ok::<nat, ParseError>(n),
        spec_from_hex(hex_render(n)) == Ok::<nat, ParseError>(n),
{
    let h = hex_chars_of(n);
    let s = hex_render(n);
    lemma_hex_chars_wf(n);
    assert(s[0] == '0' && s[1] == 'x');
    assert(s.skip(2) =~= h);
    assert(forall|i: int| 0 <= i < h.len() ==> digit_ok(true, #[trigger] h[i]));
    assert(spec_parse_digits(true, h) == Ok::<nat, ParseError>(n));
}

/// Text round trip, decimal: parsing the decimal rendering of any value
/// below P yields that value back.
pub proof fn lemma_parse_dec_round_trip(n: nat)
    requires
        n < field_p(),
    ensures
        spec_parse(dec_chars_of(n)) == Ok::<nat, ParseError>(n),
{
    let s = dec_chars_of(n);
    lemma_dec_chars_wf(n);
    if s.len() >= 2 && s[0] == '0' && s[1] == 'x' {
        assert(is_dec_digit(s[1]));
        assert(s[1] as u32 == 120);
        assert(false);
    }
    assert(forall|i: int| 0 <= i < s.len() ==> digit_ok(false, #[trigger] s[i]));
    assert(spec_parse_digits(false, s) == Ok::<nat, ParseError>(n));
}

/// The decimal rendering of zero is the single character zero.
pub proof fn lemma_zero_decimal()
    ensures
        dec_chars_of(0) =~= seq!['0'],
{
    assert(dec_char(0) == '0');
}

} // verus!
