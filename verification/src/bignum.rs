//! Fixed-width big-endian byte-string arithmetic.
//!
//! A field element is stored as 32 big-endian bytes; this module gives the
//! mathematical reading of such a byte string as a natural number, the small
//! arithmetic steps that parsing and formatting need (multiply-and-add by a
//! small radix, division with remainder by a small radix, comparison), and the
//! lemmas that connect the byte view to the numeric view.

use vstd::prelude::*;
use vstd::arithmetic::power::{pow, lemma_pow_adds, lemma_pow_positive, lemma_pow0, lemma_pow1};
use vstd::arithmetic::div_mod::lemma_fundamental_div_mod_converse;

verus! {

/// The natural number denoted by a big-endian byte string.
pub open spec fn be_nat(s: Seq<u8>) -> nat
    decreases s.len(),
{
    if s.len() == 0 {
        0
    } else {
        (be_nat(s.drop_last()) * 256 + s.last()) as nat
    }
}

/// 256 raised to `n`: the weight of a byte `n` places from the low end.
pub open spec fn pow256(n: nat) -> nat {
    pow(256, n) as nat
}

pub proof fn lemma_pow256_zero()
    ensures
        pow256(0) == 1,
{
    lemma_pow0(256);
}

pub proof fn lemma_pow256_pos(n: nat)
    ensures
        pow256(n) >= 1,
{
    lemma_pow_positive(256, n);
}

pub proof fn lemma_pow256_succ(n: nat)
    ensures
        pow256(n + 1) == 256 * pow256(n),
{
    lemma_pow_adds(256, 1nat, n);
    lemma_pow1(256);
    lemma_pow_positive(256, n);
}

/// A byte string of length `n` denotes a value below `256^n`.
pub proof fn lemma_be_nat_bound(s: Seq<u8>)
    ensures
        be_nat(s) < pow256(s.len()),
    decreases s.len(),
{
    if s.len() == 0 {
        lemma_pow256_zero();
    } else {
        lemma_be_nat_bound(s.drop_last());
        lemma_pow256_succ((s.len() - 1) as nat);
        assert(be_nat(s.drop_last()) * 256 + s.last() < pow256((s.len() - 1) as nat) * 256)
            by (nonlinear_arith)
            requires
                be_nat(s.drop_last()) < pow256((s.len() - 1) as nat),
                s.last() < 256,
        ;
    }
}

/// Reading a byte string from the high end: the first byte carries the
/// weight of all the bytes after it.
pub proof fn lemma_be_nat_first(s: Seq<u8>)
    requires
        s.len() > 0,
    ensures
        be_nat(s) == s.first() * pow256((s.len() - 1) as nat) + be_nat(s.drop_first()),
    decreases s.len(),
{
    if s.len() == 1 {
        assert(s.drop_last() =~= Seq::<u8>::empty());
        assert(s.drop_first() =~= Seq::<u8>::empty());
        lemma_pow256_zero();
    } else {
        let t = s.drop_last();
        lemma_be_nat_first(t);
        assert(t.first() == s.first());
        assert(t.drop_first() =~= s.drop_first().drop_last());
        assert(s.drop_first().last() == s.last());
        lemma_pow256_succ((s.len() - 2) as nat);
        let a = s.first() as nat;
        let k = (s.len() - 2) as nat;
        let r = be_nat(s.drop_first().drop_last());
        assert(be_nat(s) == (a * pow256(k) + r) * 256 + s.last());
        assert((a * pow256(k) + r) * 256 == a * (256 * pow256(k)) + r * 256) by (nonlinear_arith);
        assert(be_nat(s.drop_first()) == r * 256 + s.last());
    }
}

/// Splitting a byte string at `k`: the value is the prefix's value shifted
/// past the suffix, plus the suffix's value.
pub proof fn lemma_be_nat_split(s: Seq<u8>, k: int)
    requires
        0 <= k <= s.len(),
    ensures
        be_nat(s) == be_nat(s.take(k)) * pow256((s.len() - k) as nat) + be_nat(s.skip(k)),
    decreases s.len() - k,
{
    if k == s.len() {
        assert(s.take(k) =~= s);
        assert(s.skip(k) =~= Seq::<u8>::empty());
        lemma_pow256_zero();
    } else {
        lemma_be_nat_split(s, k + 1);
        let m = (s.len() - k - 1) as nat;
        let a = be_nat(s.take(k));
        let b = s[k] as nat;
        assert(s.take(k + 1).drop_last() =~= s.take(k));
        assert(s.take(k + 1).last() == s[k]);
        assert(be_nat(s.take(k + 1)) == a * 256 + b);
        assert(s.skip(k).first() == s[k]);
        assert(s.skip(k).drop_first() =~= s.skip(k + 1));
        lemma_be_nat_first(s.skip(k));
        assert(be_nat(s.skip(k)) == b * pow256(m) + be_nat(s.skip(k + 1)));
        lemma_pow256_succ(m);
        assert((a * 256 + b) * pow256(m) == a * (256 * pow256(m)) + b * pow256(m))
            by (nonlinear_arith);
    }
}

/// The low byte is the value's remainder by 256, and the rest its quotient.
pub proof fn lemma_be_nat_low_byte(s: Seq<u8>)
    requires
        s.len() > 0,
    ensures
        be_nat(s) % 256 == s.last(),
        be_nat(s) / 256 == be_nat(s.drop_last()),
{
    lemma_fundamental_div_mod_converse(
        be_nat(s) as int,
        256,
        be_nat(s.drop_last()) as int,
        s.last() as int,
    );
}

/// Byte strings of one length denote distinct values: the representation is
/// canonical.
pub proof fn lemma_be_nat_injective(a: Seq<u8>, b: Seq<u8>)
    requires
        a.len() == b.len(),
        be_nat(a) == be_nat(b),
    ensures
        a =~= b,
    decreases a.len(),
{
    if a.len() > 0 {
        lemma_be_nat_low_byte(a);
        lemma_be_nat_low_byte(b);
        lemma_be_nat_injective(a.drop_last(), b.drop_last());
        assert(a =~= a.drop_last().push(a.last()));
        assert(b =~= b.drop_last().push(b.last()));
    }
}

/// A byte string denotes zero exactly when every byte is zero.
pub proof fn lemma_be_nat_zero(s: Seq<u8>)
    ensures
        be_nat(s) == 0 <==> (forall|i: int| 0 <= i < s.len() ==> s[i] == 0),
    decreases s.len(),
{
    if s.len() > 0 {
        let t = s.drop_last();
        lemma_be_nat_zero(t);
        assert(forall|i: int| 0 <= i < s.len() - 1 ==> #[trigger] t[i] == s[i]);
        if be_nat(s) == 0 {
            assert(be_nat(t) * 256 + s.last() == 0);
            assert(forall|i: int| 0 <= i < s.len() ==> s[i] == 0) by {
                assert(forall|i: int| 0 <= i < s.len() - 1 ==> #[trigger] s[i] == t[i]);
            }
        } else {
            if forall|i: int| 0 <= i < s.len() ==> s[i] == 0 {
                assert(forall|i: int| 0 <= i < t.len() ==> #[trigger] t[i] == 0);
                assert(be_nat(t) == 0);
                assert(s.last() == 0);
                assert(false);
            }
        }
    }
}

/// Leading zero bytes do not change the value.
pub proof fn lemma_be_nat_zero_prefix(s: Seq<u8>, k: int)
    requires
        0 <= k <= s.len(),
        forall|i: int| 0 <= i < k ==> s[i] == 0,
    ensures
        be_nat(s) == be_nat(s.skip(k)),
{
    lemma_be_nat_split(s, k);
    assert(forall|i: int| 0 <= i < k ==> #[trigger] s.take(k)[i] == 0);
    lemma_be_nat_zero(s.take(k));
    lemma_pow256_pos((s.len() - k) as nat);
}

/// With equal prefixes, the string with the smaller byte at the first
/// difference denotes the smaller value.
pub proof fn lemma_be_nat_prefix_lt(a: Seq<u8>, b: Seq<u8>, i: int)
    requires
        a.len() == b.len(),
        0 <= i < a.len(),
        a.take(i) =~= b.take(i),
        a[i] < b[i],
    ensures
        be_nat(a) < be_nat(b),
{
    let m = (a.len() - i - 1) as nat;
    lemma_be_nat_split(a, i + 1);
    lemma_be_nat_split(b, i + 1);
    assert(a.take(i + 1).drop_last() =~= a.take(i));
    assert(b.take(i + 1).drop_last() =~= b.take(i));
    assert(a.take(i + 1).last() == a[i]);
    assert(b.take(i + 1).last() == b[i]);
    let pa = be_nat(a.take(i + 1));
    let pb = be_nat(b.take(i + 1));
    assert(pa == be_nat(a.take(i)) * 256 + a[i]);
    assert(pb == be_nat(b.take(i)) * 256 + b[i]);
    lemma_be_nat_bound(a.skip(i + 1));
    assert(a.skip(i + 1).len() == m);
    lemma_pow256_pos(m);
    assert(pa * pow256(m) + be_nat(a.skip(i + 1)) < pb * pow256(m)) by (nonlinear_arith)
        requires
            pa < pb,
            be_nat(a.skip(i + 1)) < pow256(m),
            pow256(m) >= 1,
    ;
}

/// Compares two equally long big-endian byte strings as numbers.
pub fn be_lt(a: &Vec<u8>, b: &Vec<u8>) -> (r: bool)
    requires
        a@.len() == b@.len(),
    ensures
        r == (be_nat(a@) < be_nat(b@)),
{
    let n = a.len();
    let mut i: usize = 0;
    while i < n
        invariant
            n == a@.len(),
            a@.len() == b@.len(),
            0 <= i <= n,
            a@.take(i as int) =~= b@.take(i as int),
        decreases n - i,
    {
        if a[i] < b[i] {
            proof {
                lemma_be_nat_prefix_lt(a@, b@, i as int);
            }
            return true;
        }
        if a[i] > b[i] {
            proof {
                lemma_be_nat_prefix_lt(b@, a@, i as int);
            }
            return false;
        }
        assert(a@.take(i + 1) =~= b@.take(i + 1));
        i = i + 1;
    }
    proof {
        assert(a@ =~= a@.take(n as int));
        assert(b@ =~= b@.take(n as int));
        assert(be_nat(a@) == be_nat(b@));
    }
    false
}

/// Tests whether a big-endian byte string denotes zero.
pub fn be_is_zero(a: &Vec<u8>) -> (r: bool)
    ensures
        r == (be_nat(a@) == 0),
{
    let n = a.len();
    let mut i: usize = 0;
    while i < n
        invariant
            n == a@.len(),
            0 <= i <= n,
            forall|j: int| 0 <= j < i ==> a@[j] == 0,
        decreases n - i,
    {
        if a[i] != 0 {
            proof {
                lemma_be_nat_zero(a@);
            }
            return false;
        }
        i = i + 1;
    }
    proof {
        lemma_be_nat_zero(a@);
    }
    true
}

/// Multiplies a 32-byte big-endian value by a small radix and adds a digit,
/// in place. Reports overflow past `256^32` instead of wrapping.
pub fn be_mul_small_add(a: &mut Vec<u8>, m: u16, d: u16) -> (overflow: bool)
    requires
        old(a)@.len() == 32,
        2 <= m <= 16,
        d < m,
    ensures
        final(a)@.len() == 32,
        !overflow ==> be_nat(final(a)@) == be_nat(old(a)@) * (m as nat) + d,
        overflow ==> be_nat(old(a)@) * (m as nat) + d >= pow256(32),
{
    let mut i: usize = 32;
    let mut carry: u16 = d;
    proof {
        assert(a@.skip(32) =~= Seq::<u8>::empty());
        assert(old(a)@.skip(32) =~= Seq::<u8>::empty());
        assert(be_nat(Seq::<u8>::empty()) == 0);
        lemma_pow256_zero();
        assert(0 * (m as nat) == 0);
    }
    while i > 0
        invariant
            a@.len() == 32,
            old(a)@.len() == 32,
            0 <= i <= 32,
            2 <= m <= 16,
            carry < m,
            forall|j: int| 0 <= j < i ==> a@[j] == old(a)@[j],
            be_nat(a@.skip(i as int)) + carry * pow256((32 - i) as nat) == be_nat(
                old(a)@.skip(i as int),
            ) * (m as nat) + d,
        decreases i,
    {
        i = i - 1;
        let ghost prev = a@;
        let ghost prev_carry = carry as nat;
        let b0: u16 = a[i] as u16;
        proof {
            assert(b0 * m + carry < 65536) by (nonlinear_arith)
                requires
                    b0 < 256,
                    m <= 16,
                    carry < m,
            ;
        }
        let cur: u16 = b0 * m + carry;
        a[i] = (cur % 256) as u8;
        carry = cur / 256;
        proof {
            let ii = i as int;
            let m_ = m as nat;
            let dd = d as nat;
            let w = pow256((31 - ii) as nat);
            lemma_pow256_succ((31 - ii) as nat);
            lemma_pow256_pos((31 - ii) as nat);
            assert(a@ =~= prev.update(ii, a@[ii]));
            assert(a@.skip(ii).first() == a@[ii]);
            assert(a@.skip(ii).drop_first() =~= a@.skip(ii + 1));
            lemma_be_nat_first(a@.skip(ii));
            assert(a@.skip(ii + 1) =~= prev.skip(ii + 1));
            assert(old(a)@.skip(ii).first() == old(a)@[ii]);
            assert(old(a)@.skip(ii).drop_first() =~= old(a)@.skip(ii + 1));
            lemma_be_nat_first(old(a)@.skip(ii));
            let ob = old(a)@[ii] as nat;
            let nb = a@[ii] as nat;
            let c2 = carry as nat;
            let ntail = be_nat(a@.skip(ii + 1));
            let otail = be_nat(old(a)@.skip(ii + 1));
            assert(prev[ii] == old(a)@[ii]);
            assert(cur as nat == ob * m_ + prev_carry);
            assert(nb == (cur as nat) % 256 && c2 == (cur as nat) / 256);
            assert(nb + 256 * c2 == ob * m_ + prev_carry);
            assert(c2 < m_) by (nonlinear_arith)
                requires
                    c2 == (cur as nat) / 256,
                    (cur as nat) == ob * m_ + prev_carry,
                    ob < 256,
                    prev_carry < m_,
                    m_ >= 2,
            ;
            // the invariant at loop entry, with the entry index i + 1
            assert(ntail + prev_carry * w == otail * m_ + dd);
            assert(be_nat(a@.skip(ii)) == nb * w + ntail);
            assert(be_nat(old(a)@.skip(ii)) == ob * w + otail);
            assert(nb * w + (otail * m_ + dd - prev_carry * w) + c2 * (256 * w) == (ob * w + otail)
                * m_ + dd) by (nonlinear_arith)
                requires
                    nb + 256 * c2 == ob * m_ + prev_carry,
                    w >= 0,
            ;
        }
    }
    proof {
        assert(a@.skip(0) =~= a@);
        assert(old(a)@.skip(0) =~= old(a)@);
        if carry > 0 {
            lemma_pow256_pos(32);
            assert(carry * pow256(32) >= pow256(32)) by (nonlinear_arith)
                requires
                    carry >= 1,
                    pow256(32) >= 1,
            ;
        }
    }
    if carry > 0 {
        true
    } else {
        false
    }
}

/// Divides a 32-byte big-endian value by a small radix in place and returns
/// the remainder.
pub fn be_divmod_small(a: &mut Vec<u8>, m: u16) -> (r: u16)
    requires
        old(a)@.len() == 32,
        2 <= m <= 16,
    ensures
        final(a)@.len() == 32,
        be_nat(final(a)@) == be_nat(old(a)@) / (m as nat),
        r == be_nat(old(a)@) % (m as nat),
        r < m,
{
    let mut i: usize = 0;
    let mut carry: u16 = 0;
    proof {
        assert(a@.take(0) =~= Seq::<u8>::empty());
        assert(old(a)@.take(0) =~= Seq::<u8>::empty());
        assert(be_nat(Seq::<u8>::empty()) == 0);
        assert(0 * (m as nat) == 0);
    }
    while i < 32
        invariant
            a@.len() == 32,
            old(a)@.len() == 32,
            0 <= i <= 32,
            2 <= m <= 16,
            carry < m,
            forall|j: int| i <= j < 32 ==> a@[j] == old(a)@[j],
            be_nat(old(a)@.take(i as int)) == be_nat(a@.take(i as int)) * (m as nat) + carry,
        decreases 32 - i,
    {
        let ghost prev = a@;
        let ghost prev_carry = carry as nat;
        let cur: u16 = carry * 256 + (a[i] as u16);
        proof {
            let m_ = m as nat;
            let ob = old(a)@[i as int] as nat;
            assert((cur as nat) == prev_carry * 256 + ob);
            assert((cur as nat) < m_ * 256) by (nonlinear_arith)
                requires
                    (cur as nat) == prev_carry * 256 + ob,
                    prev_carry < m_,
                    ob < 256,
            ;
            assert((cur as nat) / m_ < 256) by (nonlinear_arith)
                requires
                    (cur as nat) < m_ * 256,
                    m_ >= 2,
            ;
        }
        a[i] = (cur / m) as u8;
        carry = cur % m;
        proof {
            let ii = i as int;
            let m_ = m as nat;
            let q = a@[ii] as nat;
            let ob = old(a)@[ii] as nat;
            assert(a@ =~= prev.update(ii, a@[ii]));
            assert(q == (cur as nat) / m_ && (carry as nat) == (cur as nat) % m_);
            assert(q * m_ + carry == prev_carry * 256 + ob) by (nonlinear_arith)
                requires
                    q == (cur as nat) / m_,
                    (carry as nat) == (cur as nat) % m_,
                    (cur as nat) == prev_carry * 256 + ob,
                    m_ >= 2,
            ;
            assert(a@.take(ii + 1).drop_last() =~= a@.take(ii));
            assert(a@.take(ii + 1).last() == a@[ii]);
            assert(a@.take(ii) =~= prev.take(ii));
            assert(old(a)@.take(ii + 1).drop_last() =~= old(a)@.take(ii));
            assert(old(a)@.take(ii + 1).last() == old(a)@[ii]);
            assert(be_nat(a@.take(ii + 1)) == be_nat(a@.take(ii)) * 256 + q);
            assert(be_nat(old(a)@.take(ii + 1)) == be_nat(old(a)@.take(ii)) * 256 + ob);
            assert((be_nat(a@.take(ii)) * 256 + q) * m_ + carry == (be_nat(a@.take(ii)) * m_
                + prev_carry) * 256 + ob) by (nonlinear_arith)
                requires
                    q * m_ + carry == prev_carry * 256 + ob,
            ;
        }
        i = i + 1;
    }
    proof {
        assert(a@.take(32) =~= a@);
        assert(old(a)@.take(32) =~= old(a)@);
        lemma_fundamental_div_mod_converse(
            be_nat(old(a)@) as int,
            m as int,
            be_nat(a@) as int,
            carry as int,
        );
    }
    carry
}

} // verus!
