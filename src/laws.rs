//! Properties that relate `encode` and `decode`, stated over the models that
//! their contracts use.
use crate::alphabet::{digit_of, lemma_index_of_symbol, ALPHABET_LEN};
use crate::codec::{all_digits, digit_value, digits_value, encoding};
use crate::natural::{is_minimal_le, le_value, lemma_le_value_zero_iff, lemma_minimal_le_le_value, minimal_le};
use vstd::arithmetic::div_mod::{lemma_div_is_ordered, lemma_fundamental_div_mod};
use vstd::prelude::*;

verus! {

/// The digit string of `v` uses only symbols of the alphabet, and reading it
/// back in the same base gives `v`.
pub proof fn lemma_digits_value_encoding(v: nat, base: nat)
    requires
        2 <= base <= ALPHABET_LEN,
    ensures
        all_digits(encoding(v, base)),
        digits_value(encoding(v, base), base) == v,
    decreases v,
{
    if v > 0 {
        let s = encoding(v, base);
        let rest = encoding(v / base, base);
        lemma_digits_value_encoding(v / base, base);
        lemma_index_of_symbol((v % base) as int);
        assert(s.drop_first() =~= rest);
        assert forall|i: int| 0 <= i < s.len() implies (#[trigger] digit_of(s[i])) is Some by {
            if i > 0 {
                assert(s[i] == rest[i - 1]);
            }
        }
        assert(digit_value(s[0]) == v % base);
        lemma_fundamental_div_mod(v as int, base as int);
    }
}

/// Round trip: decoding, in the same base, the string that `encode` gives for
/// a buffer yields that buffer, for every base from 2 to 94 and every buffer
/// whose last (most significant) byte is not zero, the empty one included.
pub proof fn lemma_round_trip(data: Seq<u8>, base: nat)
    requires
        2 <= base <= ALPHABET_LEN,
        is_minimal_le(data),
    ensures
        all_digits(encoding(le_value(data), base)),
        minimal_le(digits_value(encoding(le_value(data), base), base)) == data,
{
    lemma_digits_value_encoding(le_value(data), base);
    lemma_minimal_le_le_value(data);
}

/// A buffer of zero bytes only, of any length, encodes to the empty string,
/// and the empty string decodes to the empty buffer.
pub proof fn lemma_zero_buffer_collapses(data: Seq<u8>, base: nat)
    requires
        forall|i: int| 0 <= i < data.len() ==> data[i] == 0,
    ensures
        encoding(le_value(data), base) == Seq::<char>::empty(),
        all_digits(Seq::<char>::empty()),
        minimal_le(digits_value(Seq::<char>::empty(), base)) == Seq::<u8>::empty(),
{
    lemma_le_value_zero_iff(data);
}

/// When exactly one character of `s` lies outside the alphabet, decoding `s`
/// fails, and the only position that a failure can report is that one.
pub proof fn lemma_single_invalid_character(s: Seq<char>, p: int)
    requires
        0 <= p < s.len(),
        digit_of(s[p]) is None,
        forall|j: int| 0 <= j < s.len() && j != p ==> (#[trigger] digit_of(s[j])) is Some,
    ensures
        !all_digits(s),
        all_digits(s.take(p)),
        forall|q: int|
            0 <= q < s.len() && (#[trigger] digit_of(s[q])) is None && all_digits(s.take(q))
                ==> q == p,
{
    assert forall|i: int| 0 <= i < s.take(p).len() implies (#[trigger] digit_of(
        s.take(p)[i],
    )) is Some by {
        assert(s.take(p)[i] == s[i]);
    }
    assert forall|q: int|
        0 <= q < s.len() && (#[trigger] digit_of(s[q])) is None && all_digits(
            s.take(q),
        ) implies q == p by {
        if p < q {
            assert(s.take(q)[p] == s[p]);
        }
    }
}

/// The digit string of a value is never longer than that of a larger value
/// in the same base.
pub proof fn lemma_encoding_len_monotonic(v1: nat, v2: nat, base: nat)
    requires
        2 <= base,
        v1 <= v2,
    ensures
        encoding(v1, base).len() <= encoding(v2, base).len(),
    decreases v2,
{
    if v1 > 0 {
        lemma_div_is_ordered(v1 as int, v2 as int, base as int);
        vstd::arithmetic::div_mod::lemma_div_decreases(v2 as int, base as int);
        lemma_encoding_len_monotonic(v1 / base, v2 / base, base);
    }
}

/// Monotonic length: at a fixed base, a buffer of larger magnitude never
/// encodes to a shorter string than one of smaller magnitude.
pub proof fn lemma_encode_len_monotonic(smaller: Seq<u8>, larger: Seq<u8>, base: nat)
    requires
        2 <= base <= ALPHABET_LEN,
        le_value(smaller) < le_value(larger),
    ensures
        encoding(le_value(smaller), base).len() <= encoding(le_value(larger), base).len(),
{
    lemma_encoding_len_monotonic(le_value(smaller), le_value(larger), base);
}

} // verus!
