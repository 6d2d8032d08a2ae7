//! Unsigned integers of any size, held as little-endian strings of bytes or
//! of base 2^32 limbs, with the arithmetic that the codec needs done by
//! `num`'s `BigUint`.
use num::BigUint;
use vstd::prelude::*;

verus! {

/// Value of a little-endian byte string: the first byte is the least
/// significant.
pub open spec fn le_value(b: Seq<u8>) -> nat
    decreases b.len(),
{
    if b.len() == 0 {
        0
    } else {
        b[0] as nat + 256 * le_value(b.drop_first())
    }
}

/// Shortest little-endian byte string of `v`: no most significant zero byte,
/// and empty for zero.
pub open spec fn minimal_le(v: nat) -> Seq<u8>
    decreases v,
{
    if v == 0 {
        seq![]
    } else {
        seq![(v % 256) as u8] + minimal_le(v / 256)
    }
}

/// Byte string that `BigUint::to_bytes_le` gives for `v`: the shortest one,
/// except that zero is a single zero byte.
pub open spec fn big_bytes(v: nat) -> Seq<u8> {
    if v == 0 {
        seq![0u8]
    } else {
        minimal_le(v)
    }
}

/// A byte string is minimal when its most significant byte is not zero.
pub open spec fn is_minimal_le(b: Seq<u8>) -> bool {
    b.len() == 0 || b.last() != 0
}

/// The shortest byte string of `v` is worth `v`.
pub proof fn lemma_le_value_minimal_le(v: nat)
    ensures
        le_value(minimal_le(v)) == v,
    decreases v,
{
    if v > 0 {
        lemma_le_value_minimal_le(v / 256);
        let s = minimal_le(v);
        assert(s.drop_first() =~= minimal_le(v / 256));
    }
}

/// The byte string that `BigUint` gives for `v` is worth `v`.
pub proof fn lemma_le_value_big_bytes(v: nat)
    ensures
        le_value(big_bytes(v)) == v,
{
    if v == 0 {
        assert(big_bytes(v).drop_first() =~= Seq::<u8>::empty());
        assert(le_value(big_bytes(v).drop_first()) == 0);
    } else {
        lemma_le_value_minimal_le(v);
    }
}

/// The shortest byte string of a value is the string itself when that is
/// minimal.
pub proof fn lemma_minimal_le_le_value(b: Seq<u8>)
    requires
        is_minimal_le(b),
    ensures
        minimal_le(le_value(b)) == b,
    decreases b.len(),
{
    if b.len() > 0 {
        let t = b.drop_first();
        if t.len() > 0 {
            assert(t.last() == b.last());
        }
        lemma_minimal_le_le_value(t);
        if t.len() == 0 {
            assert(le_value(t) == 0);
        } else {
            lemma_le_value_zero_iff(t);
            assert(t[t.len() - 1] != 0);
        }
        let v = le_value(b);
        assert(v % 256 == b[0] as nat && v / 256 == le_value(t)) by (nonlinear_arith)
            requires
                v == b[0] as nat + 256 * le_value(t),
                b[0] < 256,
        ;
        assert(v > 0);
        assert(minimal_le(v) =~= b);
    }
}

/// A byte string is worth zero exactly when all of its bytes are zero.
pub proof fn lemma_le_value_zero_iff(b: Seq<u8>)
    ensures
        (le_value(b) == 0) <==> (forall|i: int| 0 <= i < b.len() ==> b[i] == 0),
    decreases b.len(),
{
    if b.len() > 0 {
        lemma_le_value_zero_iff(b.drop_first());
        if le_value(b) == 0 {
            assert forall|i: int| 0 <= i < b.len() implies b[i] == 0 by {
                if i > 0 {
                    assert(b[i] == b.drop_first()[i - 1]);
                }
            }
        }
        if forall|i: int| 0 <= i < b.len() ==> b[i] == 0 {
            assert forall|i: int| 0 <= i < b.drop_first().len() implies b.drop_first()[i] == 0 by {
                assert(b.drop_first()[i] == b[i + 1]);
            }
        }
    }
}

/// Tells whether a little-endian byte string is worth zero.
pub fn is_zero(b: &[u8]) -> (r: bool)
    ensures
        r == (le_value(b@) == 0),
{
    proof {
        lemma_le_value_zero_iff(b@);
    }
    let mut i: usize = 0;
    while i < b.len()
        invariant
            i <= b@.len(),
            forall|j: int| 0 <= j < i ==> b@[j] == 0,
        decreases b@.len() - i,
    {
        if b[i] != 0 {
            proof {
                lemma_le_value_zero_iff(b@);
            }
            assert(b@[i as int] != 0);
            return false;
        }
        i = i + 1;
    }
    true
}

/// Value of a string of base 2^32 limbs, least significant first.
pub open spec fn limbs_value(l: Seq<u32>) -> nat
    decreases l.len(),
{
    if l.len() == 0 {
        0
    } else {
        l[0] as nat + 0x1_0000_0000 * limbs_value(l.drop_first())
    }
}

/// Digits of `v` in base `b`, least significant first, without a most
/// significant zero digit; empty for zero.
pub open spec fn radix_le(v: nat, b: nat) -> Seq<u8>
    decreases v,
    via radix_le_decreases
{
    if b < 2 || v == 0 {
        seq![]
    } else {
        seq![(v % b) as u8] + radix_le(v / b, b)
    }
}

#[via_fn]
proof fn radix_le_decreases(v: nat, b: nat) {
    if !(b < 2 || v == 0) {
        vstd::arithmetic::div_mod::lemma_div_decreases(v as int, b as int);
    }
}

/// Digits that `BigUint::to_radix_le` gives for `v`: those of [`radix_le`],
/// except that zero is a single zero digit.
pub open spec fn big_radix(v: nat, b: nat) -> Seq<u8> {
    if v == 0 {
        seq![0u8]
    } else {
        radix_le(v, b)
    }
}

/// Relies on `BigUint::to_radix_le` (with `BigUint::from_bytes_le` to
/// convert): the digits of `data` in base `base`.
#[verifier::external_body]
pub(crate) fn radix_digits(data: &[u8], base: u8) -> (r: Vec<u8>)
    requires
        2 <= base,
    ensures
        r@ == big_radix(le_value(data@), base as nat),
{
    BigUint::from_bytes_le(data).to_radix_le(base as u32)
}

/// Relies on `Mul<u32>` for `BigUint` (with `BigUint::from_slice` and
/// `BigUint::to_u32_digits` to convert): the product of `n` and `m`.
#[verifier::external_body]
pub(crate) fn mul_limbs(n: &[u32], m: u32) -> (r: Vec<u32>)
    ensures
        limbs_value(r@) == limbs_value(n@) * m,
{
    (BigUint::from_slice(n) * m).to_u32_digits()
}

/// Relies on `Add` for `BigUint` (with `BigUint::from_slice` and
/// `BigUint::to_u32_digits` to convert): the sum of `a` and `b`.
#[verifier::external_body]
pub(crate) fn add_limbs(a: &[u32], b: &[u32]) -> (r: Vec<u32>)
    ensures
        limbs_value(r@) == limbs_value(a@) + limbs_value(b@),
{
    (BigUint::from_slice(a) + BigUint::from_slice(b)).to_u32_digits()
}

/// Relies on `BigUint::to_bytes_le` (with `BigUint::from_slice` to convert):
/// the little-endian bytes of the value of `n`.
#[verifier::external_body]
pub(crate) fn limbs_to_bytes(n: &[u32]) -> (r: Vec<u8>)
    ensures
        r@ == big_bytes(limbs_value(n@)),
{
    BigUint::from_slice(n).to_bytes_le()
}

} // verus!
