//! Encoding of byte buffers as digit strings in a base from 2 to 94, and
//! decoding back.
use crate::alphabet::{digit_of, index_of, symbol, symbol_for, ALPHABET_LEN};
use crate::natural::{
    add_limbs, is_zero, le_value, lemma_le_value_big_bytes, limbs_to_bytes, limbs_value,
    minimal_le, mul_limbs, radix_digits, radix_le,
};
use vstd::arithmetic::div_mod::lemma_div_decreases;
use vstd::arithmetic::power::pow;
use vstd::prelude::*;
use vstd::slice::slice_to_vec;
use vstd::string::StrSliceExecFns;

verus! {

/// Digit string of `v` in `base`, least significant digit first; empty for
/// zero.
pub open spec fn encoding(v: nat, base: nat) -> Seq<char>
    decreases v,
    via encoding_decreases
{
    if base < 2 || v == 0 {
        seq![]
    } else {
        seq![symbol((v % base) as int)] + encoding(v / base, base)
    }
}

#[via_fn]
proof fn encoding_decreases(v: nat, base: nat) {
    if !(base < 2 || v == 0) {
        lemma_div_decreases(v as int, base as int);
    }
}

/// Digit value of a character of the alphabet (zero for any other).
pub open spec fn digit_value(c: char) -> nat {
    match digit_of(c) {
        Some(d) => d,
        None => 0,
    }
}

/// Value of a digit string in `base`, least significant digit first.
pub open spec fn digits_value(s: Seq<char>, base: nat) -> nat
    decreases s.len(),
{
    if s.len() == 0 {
        0
    } else {
        digit_value(s[0]) + base * digits_value(s.drop_first(), base)
    }
}

/// Every character of `s` belongs to the alphabet.
pub open spec fn all_digits(s: Seq<char>) -> bool {
    forall|i: int| 0 <= i < s.len() ==> (#[trigger] digit_of(s[i])) is Some
}

/// Failure of [`decode`].
#[derive(Debug, Clone, Copy, PartialEq, Eq, Structural)]
pub enum DecodeError {
    /// The character at `position` (counted in characters from zero) is not in
    /// the alphabet; `c` holds the low byte of its code point.
    InvalidCharacter { c: u8, position: usize },
}

/// Relies on `String::push`: appends one character.
#[verifier::external_body]
fn push_char(s: &mut String, c: char)
    ensures
        final(s)@ == old(s)@.push(c),
{
    s.push(c);
}

/// The digit string of `v` is its digits in `base`, each written as its
/// symbol; every digit is below `base`.
pub proof fn lemma_encoding_radix_le(v: nat, base: nat)
    requires
        2 <= base <= ALPHABET_LEN,
    ensures
        encoding(v, base) == radix_le(v, base).map_values(|d: u8| symbol(d as int)),
        forall|j: int| 0 <= j < radix_le(v, base).len() ==> #[trigger] radix_le(v, base)[j] < base,
    decreases v,
{
    if v > 0 {
        lemma_div_decreases(v as int, base as int);
        lemma_encoding_radix_le(v / base, base);
        let digits = radix_le(v, base);
        let rest = radix_le(v / base, base);
        assert(digits == seq![(v % base) as u8] + rest);
        assert forall|j: int| 0 <= j < digits.len() implies #[trigger] digits[j] < base by {
            if j > 0 {
                assert(digits[j] == rest[j - 1]);
            }
        }
        assert(encoding(v, base) =~= digits.map_values(|d: u8| symbol(d as int)));
    } else {
        assert(encoding(v, base) =~= radix_le(v, base).map_values(|d: u8| symbol(d as int)));
    }
}

/// Encodes `data`, read as a little-endian unsigned integer, as its digits in
/// `base`, least significant first. A buffer worth zero (empty, or all zero
/// bytes) gives the empty string.
pub fn encode(data: &[u8], base: u8) -> (out: String)
    requires
        2 <= base <= ALPHABET_LEN,
    ensures
        out@ == encoding(le_value(data@), base as nat),
{
    let ghost v = le_value(data@);
    let mut out = String::new();
    if is_zero(data) {
        return out;
    }
    let digits = radix_digits(data, base);
    proof {
        lemma_encoding_radix_le(v, base as nat);
    }
    let mut i: usize = 0;
    while i < digits.len()
        invariant
            2 <= base <= ALPHABET_LEN,
            i <= digits@.len(),
            digits@ == radix_le(v, base as nat),
            forall|j: int| 0 <= j < digits@.len() ==> #[trigger] digits@[j] < base,
            out@ == digits@.take(i as int).map_values(|d: u8| symbol(d as int)),
        decreases digits@.len() - i,
    {
        let c = symbol_for(digits[i]);
        push_char(&mut out, c);
        assert(digits@.take(i + 1).map_values(|d: u8| symbol(d as int)) =~= digits@.take(
            i as int,
        ).map_values(|d: u8| symbol(d as int)).push(c));
        i = i + 1;
    }
    assert(digits@.take(i as int) =~= digits@);
    out
}

/// Appending a character to a digit string adds its digit times the weight of
/// its position.
pub proof fn lemma_digits_value_push(s: Seq<char>, c: char, base: nat)
    ensures
        digits_value(s.push(c), base) == digits_value(s, base) + digit_value(c) * pow(
            base as int,
            s.len(),
        ),
    decreases s.len(),
{
    reveal(pow);
    if s.len() == 0 {
        assert(s.push(c).drop_first() =~= Seq::<char>::empty());
        assert(digits_value(Seq::<char>::empty(), base) == 0);
        assert(pow(base as int, 0) == 1);
    } else {
        let t = s.drop_first();
        assert(s.push(c).drop_first() =~= t.push(c));
        lemma_digits_value_push(t, c, base);
        let x = digits_value(t, base) as int;
        let p = pow(base as int, t.len());
        assert(pow(base as int, s.len()) == base * p);
        assert(base * (x + digit_value(c) * p) == base * x + digit_value(c) * (base * p))
            by (nonlinear_arith);
    }
}

/// Decodes a digit string written by [`encode`] in the same `base`, giving the
/// shortest little-endian byte buffer of its value (empty for zero). Fails on
/// the first character that is not in the alphabet. A digit that is in the
/// alphabet counts with its value whatever `base` is.
pub fn decode(encoded: &str, base: u8) -> (r: Result<Vec<u8>, DecodeError>)
    ensures
        r is Ok <==> all_digits(encoded@),
        r matches Ok(bytes) ==> bytes@ == minimal_le(digits_value(encoded@, base as nat)),
        r matches Err(DecodeError::InvalidCharacter { c, position }) ==> {
            &&& position < encoded@.len()
            &&& digit_of(encoded@[position as int]) is None
            &&& all_digits(encoded@.take(position as int))
            &&& c == (encoded@[position as int] as u32 % 256) as u8
        },
{
    let n_chars: usize = encoded.unicode_len();
    let mut num: Vec<u32> = Vec::new();
    let mut power: Vec<u32> = Vec::new();
    power.push(1);
    proof {
        reveal(pow);
        assert(power@.drop_first() =~= Seq::<u32>::empty());
        assert(limbs_value(Seq::<u32>::empty()) == 0);
    }
    let mut position: usize = 0;
    for c in it: encoded.chars()
        invariant
            it.seq() == encoded@,
            position == it.index(),
            encoded@.len() == n_chars,
            all_digits(encoded@.take(position as int)),
            limbs_value(num@) == digits_value(encoded@.take(position as int), base as nat),
            limbs_value(power@) == pow(base as int, position as nat),
    {
        let ghost prefix = encoded@.take(position as int);
        assert(encoded@.take(position + 1) =~= prefix.push(c));
        match index_of(c) {
            None => {
                let low: u32 = c as u32 % 256;
                return Err(DecodeError::InvalidCharacter { c: low as u8, position });
            },
            Some(d) => {
                let ghost acc = limbs_value(num@);
                let ghost weight = limbs_value(power@);
                let term = mul_limbs(power.as_slice(), d as u32);
                num = add_limbs(num.as_slice(), term.as_slice());
                power = mul_limbs(power.as_slice(), base as u32);
                proof {
                    reveal(pow);
                    lemma_digits_value_push(prefix, c, base as nat);
                    assert(digit_value(c) == d as nat);
                    assert(prefix.len() == position);
                    assert(weight * d == d * weight) by (nonlinear_arith);
                    assert(weight * base == base * weight) by (nonlinear_arith);
                    assert(limbs_value(num@) == acc + weight * d);
                    assert(limbs_value(num@) == digits_value(prefix.push(c), base as nat));
                    assert(pow(base as int, (position + 1) as nat) == base * pow(
                        base as int,
                        position as nat,
                    ));
                }
            },
        }
        position = position + 1;
    }
    assert(encoded@.take(position as int) =~= encoded@);
    let bytes = limbs_to_bytes(num.as_slice());
    proof {
        lemma_le_value_big_bytes(limbs_value(num@));
    }
    if is_zero(bytes.as_slice()) {
        Ok(Vec::new())
    } else {
        Ok(bytes)
    }
}

} // verus!
