//! The fixed table of 94 digit symbols and its inverse.
use vstd::prelude::*;

verus! {

/// Number of symbols in the alphabet, and the largest supported base.
pub const ALPHABET_LEN: u8 = 94;

/// Code point of the symbol that stands for digit value `i` (for `i < 94`).
///
/// The table runs `0-9`, `A-Z`, `a-z`, then the printable ASCII punctuation
/// except `!` in code-point order, and ends with `¡` (U+00A1).
pub open spec fn symbol_code(i: int) -> u32 {
    if i < 10 {
        (48 + i) as u32
    } else if i < 36 {
        (55 + i) as u32
    } else if i < 62 {
        (61 + i) as u32
    } else if i < 76 {
        (i - 28) as u32
    } else if i < 83 {
        (i - 18) as u32
    } else if i < 89 {
        (i + 8) as u32
    } else if i < 93 {
        (i + 34) as u32
    } else {
        161
    }
}

/// The symbol for digit value `i`.
pub open spec fn symbol(i: int) -> char {
    symbol_code(i) as char
}

/// Digit value of a code point, or `None` when it is not in the alphabet.
pub open spec fn digit_of_code(x: u32) -> Option<nat> {
    if 48 <= x <= 57 {
        Some((x - 48) as nat)
    } else if 65 <= x <= 90 {
        Some((x - 55) as nat)
    } else if 97 <= x <= 122 {
        Some((x - 61) as nat)
    } else if 34 <= x <= 47 {
        Some((x + 28) as nat)
    } else if 58 <= x <= 64 {
        Some((x + 18) as nat)
    } else if 91 <= x <= 96 {
        Some((x - 8) as nat)
    } else if 123 <= x <= 126 {
        Some((x - 34) as nat)
    } else if x == 161 {
        Some(93)
    } else {
        None
    }
}

/// Digit value of a character, or `None` when it is not in the alphabet.
pub open spec fn digit_of(c: char) -> Option<nat> {
    digit_of_code(c as u32)
}

/// Returns the symbol that stands for digit value `index`.
pub fn symbol_for(index: u8) -> (c: char)
    requires
        index < ALPHABET_LEN,
    ensures
        c == symbol(index as int),
{
    let code: u8 = if index < 10 {
        48 + index
    } else if index < 36 {
        55 + index
    } else if index < 62 {
        61 + index
    } else if index < 76 {
        index - 28
    } else if index < 83 {
        index - 18
    } else if index < 89 {
        index + 8
    } else if index < 93 {
        index + 34
    } else {
        161
    };
    code as char
}

/// Returns the digit value of `c`, or `None` when `c` is not in the alphabet.
pub fn index_of(c: char) -> (r: Option<u8>)
    ensures
        r matches Some(d) ==> digit_of(c) == Some(d as nat),
        r is None ==> digit_of(c) is None,
{
    let x: u32 = c as u32;
    if 48 <= x && x <= 57 {
        Some((x - 48) as u8)
    } else if 65 <= x && x <= 90 {
        Some((x - 55) as u8)
    } else if 97 <= x && x <= 122 {
        Some((x - 61) as u8)
    } else if 34 <= x && x <= 47 {
        Some((x + 28) as u8)
    } else if 58 <= x && x <= 64 {
        Some((x + 18) as u8)
    } else if 91 <= x && x <= 96 {
        Some((x - 8) as u8)
    } else if 123 <= x && x <= 126 {
        Some((x - 34) as u8)
    } else if x == 161 {
        Some(93)
    } else {
        None
    }
}

/// Every digit value below 94 maps to a symbol, and looking that symbol up
/// gives the digit value back.
pub proof fn lemma_index_of_symbol(i: int)
    requires
        0 <= i < ALPHABET_LEN,
    ensures
        digit_of(symbol(i)) == Some(i as nat),
{
}

/// The symbols of the alphabet are pairwise distinct.
pub proof fn lemma_symbols_distinct(i: int, j: int)
    requires
        0 <= i < ALPHABET_LEN,
        0 <= j < ALPHABET_LEN,
        i != j,
    ensures
        symbol(i) != symbol(j),
{
    lemma_index_of_symbol(i);
    lemma_index_of_symbol(j);
}

} // verus!
