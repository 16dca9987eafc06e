//! Little-endian byte strings read as unsigned numbers, and the arbitrary
//! precision bit operations that the fault models use on them.
use num::BigUint;
use vstd::prelude::*;

verus! {

/// Byte `i` of the number that `s` encodes: zero past the end of `s`.
pub open spec fn byte_at(s: Seq<u8>, i: int) -> u8 {
    if 0 <= i < s.len() {
        s[i]
    } else {
        0u8
    }
}

/// Both sequences encode the same number.
pub open spec fn same_number(s: Seq<u8>, t: Seq<u8>) -> bool {
    forall|i: int| 0 <= i ==> #[trigger] byte_at(s, i) == byte_at(t, i)
}

/// The number that `s` encodes, cut or zero-padded to exactly `n` bytes.
pub open spec fn fit(s: Seq<u8>, n: nat) -> Seq<u8> {
    Seq::new(n, |i: int| byte_at(s, i))
}

pub open spec fn max_len(a: Seq<u8>, b: Seq<u8>) -> nat {
    if a.len() >= b.len() {
        a.len()
    } else {
        b.len()
    }
}

pub open spec fn and_bytes(a: Seq<u8>, b: Seq<u8>) -> Seq<u8> {
    Seq::new(max_len(a, b), |i: int| byte_at(a, i) & byte_at(b, i))
}

pub open spec fn or_bytes(a: Seq<u8>, b: Seq<u8>) -> Seq<u8> {
    Seq::new(max_len(a, b), |i: int| byte_at(a, i) | byte_at(b, i))
}

pub open spec fn xor_bytes(a: Seq<u8>, b: Seq<u8>) -> Seq<u8> {
    Seq::new(max_len(a, b), |i: int| byte_at(a, i) ^ byte_at(b, i))
}

/// `a AND (NOT b)`: the bits of `a` that `b` does not select.
pub open spec fn clear_bytes(a: Seq<u8>, b: Seq<u8>) -> Seq<u8> {
    Seq::new(max_len(a, b), |i: int| byte_at(a, i) & !byte_at(b, i))
}

/// Number of bytes up to and including the most significant non-zero one.
pub open spec fn significant_len(s: Seq<u8>) -> nat
    decreases s.len(),
{
    if s.len() == 0 {
        0
    } else if s.last() != 0 {
        s.len()
    } else {
        significant_len(s.drop_last())
    }
}

/// The shortest little-endian form of a number; zero is a single zero byte.
pub open spec fn canonical(s: Seq<u8>) -> Seq<u8> {
    if significant_len(s) == 0 {
        seq![0u8]
    } else {
        s.take(significant_len(s) as int)
    }
}

/// Number of bits of a byte up to its highest set bit.
pub open spec fn byte_bits(b: u8) -> nat
    decreases b,
{
    if b == 0 {
        0
    } else {
        1 + byte_bits(b / 2)
    }
}

/// The fewest bits that express the number `s` encodes (zero for zero).
pub open spec fn bit_length(s: Seq<u8>) -> nat {
    let k = significant_len(s);
    if k == 0 {
        0
    } else {
        (8 * (k - 1) + byte_bits(s[k - 1])) as nat
    }
}

/// The low `r` bits of a byte set, for `r < 8`.
pub open spec fn low_mask(r: nat) -> u8 {
    if r == 0 {
        0u8
    } else {
        0xFFu8 >> ((8 - r) as u8)
    }
}

/// `(1 << k) - 1` in little-endian bytes.
pub open spec fn low_ones(k: nat) -> Seq<u8> {
    Seq::new(
        k / 8 + if k % 8 == 0 { 0nat } else { 1nat },
        |i: int| if i < k / 8 { 0xFFu8 } else { low_mask(k % 8) },
    )
}

/// Relies on `BigUint`'s `&`: the bitwise AND of the two numbers, which
/// `to_bytes_le` hands back in its shortest form.
#[verifier::external_body]
pub(crate) fn big_and(a: &Vec<u8>, b: &Vec<u8>) -> (r: Vec<u8>)
    ensures
        r@ == canonical(and_bytes(a@, b@)),
{
    (BigUint::from_bytes_le(a) & BigUint::from_bytes_le(b)).to_bytes_le()
}

/// Relies on `BigUint`'s `|`: the bitwise OR of the two numbers, which
/// `to_bytes_le` hands back in its shortest form.
#[verifier::external_body]
pub(crate) fn big_or(a: &Vec<u8>, b: &Vec<u8>) -> (r: Vec<u8>)
    ensures
        r@ == canonical(or_bytes(a@, b@)),
{
    (BigUint::from_bytes_le(a) | BigUint::from_bytes_le(b)).to_bytes_le()
}

/// Relies on `BigUint`'s `^`: the bitwise XOR of the two numbers, which
/// `to_bytes_le` hands back in its shortest form.
#[verifier::external_body]
pub(crate) fn big_xor(a: &Vec<u8>, b: &Vec<u8>) -> (r: Vec<u8>)
    ensures
        r@ == canonical(xor_bytes(a@, b@)),
{
    (BigUint::from_bytes_le(a) ^ BigUint::from_bytes_le(b)).to_bytes_le()
}

/// Relies on `BigUint::bits`: the fewest bits that express the number.
#[verifier::external_body]
pub(crate) fn big_bits(a: &Vec<u8>) -> (r: u64)
    ensures
        r == bit_length(a@),
{
    BigUint::from_bytes_le(a).bits()
}

/// The bytes past the significant ones are zero.
pub proof fn lemma_significant_len(s: Seq<u8>)
    ensures
        significant_len(s) <= s.len(),
        forall|i: int| significant_len(s) <= i < s.len() ==> s[i] == 0,
        significant_len(s) > 0 ==> s[significant_len(s) - 1] != 0,
    decreases s.len(),
{
    if s.len() > 0 && s.last() == 0 {
        let t = s.drop_last();
        lemma_significant_len(t);
        assert forall|i: int| significant_len(s) <= i < s.len() implies s[i] == 0 by {
            if i < t.len() {
                assert(s[i] == t[i]);
            }
        }
    }
}

/// Every byte of a number's shortest form is the byte of the number itself.
pub proof fn lemma_canonical_same_number(s: Seq<u8>)
    ensures
        same_number(canonical(s), s),
    decreases s.len(),
{
    if s.len() > 0 && s.last() == 0 {
        let t = s.drop_last();
        lemma_canonical_same_number(t);
        lemma_significant_len(t);
        let k = significant_len(s);
        assert(k == significant_len(t));
        if k > 0 {
            assert(s.take(k as int) =~= t.take(k as int));
        }
        assert(canonical(s) == canonical(t));
        assert forall|i: int| 0 <= i implies #[trigger] byte_at(canonical(s), i) == byte_at(s, i) by {
            assert(byte_at(canonical(t), i) == byte_at(t, i));
            if i < s.len() - 1 {
                assert(byte_at(t, i) == byte_at(s, i));
            }
        }
    } else if s.len() > 0 {
        assert(canonical(s) =~= s);
    }
}

/// `fit` reads a number only through its bytes.
pub proof fn lemma_fit_same_number(s: Seq<u8>, t: Seq<u8>, n: nat)
    requires
        same_number(s, t),
    ensures
        fit(s, n) == fit(t, n),
{
    assert forall|i: int| 0 <= i < n implies fit(s, n)[i] == fit(t, n)[i] by {
        assert(byte_at(s, i) == byte_at(t, i));
    }
    assert(fit(s, n) =~= fit(t, n));
}

/// Builds `(1 << k) - 1` in little-endian bytes.
pub fn low_ones_bytes(k: u64) -> (r: Vec<u8>)
    ensures
        r@ == low_ones(k as nat),
{
    let full = k / 8;
    let rest = k % 8;
    let mut r: Vec<u8> = Vec::new();
    let mut i: u64 = 0;
    while i < full
        invariant
            i <= full,
            full == k / 8,
            r@.len() == i,
            forall|j: int| 0 <= j < i ==> r@[j] == 0xFFu8,
        decreases full - i,
    {
        r.push(0xFFu8);
        i = i + 1;
    }
    if rest != 0 {
        let top: u8 = 0xFFu8 >> ((8 - rest) as u8);
        r.push(top);
    }
    assert(r@ =~= low_ones(k as nat));
    r
}

/// The number `s` encodes, cut or zero-padded to exactly `n` bytes.
pub fn fit_bytes(s: &Vec<u8>, n: usize) -> (r: Vec<u8>)
    ensures
        r@ == fit(s@, n as nat),
{
    let mut r: Vec<u8> = Vec::new();
    let mut i: usize = 0;
    while i < n
        invariant
            i <= n,
            r@ == fit(s@, i as nat),
        decreases n - i,
    {
        let b: u8 = if i < s.len() {
            s[i]
        } else {
            0u8
        };
        r.push(b);
        i = i + 1;
        assert(r@ =~= fit(s@, i as nat));
    }
    r
}

} // verus!
