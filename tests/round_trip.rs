use base94::alphabet::{index_of, symbol_for, ALPHABET_LEN};
use base94::{decode, encode, DecodeError};

const MAX_BASE: u8 = 94;

#[test]
fn test_encode_decode_empty() {
    for base in 2..=MAX_BASE {
        let data = [0];
        let encoded = encode(&data, base);
        assert_eq!(encoded, "");
        let decoded = decode(&encoded, base).unwrap();
        // A buffer worth zero collapses to the empty string and back to the
        // empty buffer.
        assert_eq!(decoded, Vec::<u8>::new());
    }
}

#[test]
fn test_encode_decode_single_byte() {
    for base in 2..=MAX_BASE {
        let data = [65];
        let encoded = encode(&data, base);
        let decoded = decode(&encoded, base).unwrap();
        assert_eq!(decoded, data);
    }
}

#[test]
fn test_encode_decode_hello_world() {
    for base in 2..=MAX_BASE {
        let data = b"Hello, World!";
        let encoded = encode(data, base);
        let decoded = decode(&encoded, base).unwrap();
        assert_eq!(decoded, data);
    }
}

#[test]
fn test_encode_decode_max_value() {
    for base in 2..=MAX_BASE {
        let data = [255, 255, 255];
        let encoded = encode(&data, base);
        let decoded = decode(&encoded, base).unwrap();
        assert_eq!(decoded, data);
    }
}

#[test]
fn test_encode_decode_large_data() {
    for base in 2..=MAX_BASE {
        let data = vec![42; 1000];
        let encoded = encode(&data, base);
        let decoded = decode(&encoded, base).unwrap();
        assert_eq!(decoded, data);
    }
}

#[test]
fn hello_round_trip_base_94() {
    let data = [72, 101, 108, 108, 111];
    let encoded = encode(&data, 94);
    assert!(!encoded.is_empty());
    assert_eq!(decode(&encoded, 94).unwrap(), data.to_vec());
}

#[test]
fn empty_buffer_and_empty_string() {
    assert_eq!(encode(&[], 94), "");
    assert_eq!(decode("", 94).unwrap(), Vec::<u8>::new());
}

#[test]
fn all_zero_buffers_collapse() {
    for len in 1..5 {
        let data = vec![0u8; len];
        assert_eq!(encode(&data, 2), "");
        assert_eq!(encode(&data, 94), "");
    }
}

#[test]
fn max_bytes_at_base_2_are_binary_digits() {
    let data = [255, 255, 255];
    let encoded = encode(&data, 2);
    assert_eq!(encoded, "1".repeat(24));
    assert!(encoded.chars().all(|c| c == '0' || c == '1'));
    assert_eq!(decode(&encoded, 2).unwrap(), data.to_vec());
}

#[test]
fn exclamation_mark_is_rejected() {
    assert_eq!(
        decode("!", 94),
        Err(DecodeError::InvalidCharacter { c: b'!', position: 0 })
    );
}

#[test]
fn base_2_is_longer_than_base_94() {
    let data = b"Hello";
    assert!(encode(data, 2).len() > encode(data, 94).len());
}

#[test]
fn digits_are_least_significant_first() {
    assert_eq!(encode(&[5], 2), "101");
    assert_eq!(encode(&[6], 2), "011");
    assert_eq!(encode(&[255], 16), "FF");
    assert_eq!(encode(&[0, 1], 10), "652");
    assert_eq!(decode("652", 10).unwrap(), vec![0, 1]);
    assert_eq!(decode("011", 2).unwrap(), vec![6]);
}

#[test]
fn last_symbol_is_used_at_base_94() {
    assert_eq!(encode(&[93], 94), "\u{a1}");
    assert_eq!(decode("\u{a1}", 94).unwrap(), vec![93]);
    assert_eq!(encode(&[94], 94), "01");
}

#[test]
fn trailing_zero_bytes_are_dropped() {
    let encoded = encode(&[1, 0], 10);
    assert_eq!(encoded, "1");
    assert_eq!(decode(&encoded, 10).unwrap(), vec![1]);
}

#[test]
fn digits_count_whatever_the_base() {
    assert_eq!(decode("z", 2).unwrap(), vec![61]);
}

#[test]
fn invalid_character_among_valid_ones() {
    assert_eq!(
        decode("ab!c", 94),
        Err(DecodeError::InvalidCharacter { c: b'!', position: 2 })
    );
    assert_eq!(
        decode("0 1", 2),
        Err(DecodeError::InvalidCharacter { c: b' ', position: 1 })
    );
}

#[test]
fn first_invalid_character_is_reported() {
    assert_eq!(
        decode("1!2 3", 94),
        Err(DecodeError::InvalidCharacter { c: b'!', position: 1 })
    );
}

#[test]
fn invalid_character_position_counts_characters() {
    assert_eq!(
        decode("\u{a1}a\u{20ac}", 94),
        Err(DecodeError::InvalidCharacter { c: 0xac, position: 2 })
    );
}

#[test]
fn lookup_inverts_symbol_table() {
    let mut seen = std::collections::HashSet::new();
    for i in 0..ALPHABET_LEN {
        let c = symbol_for(i);
        assert!(!c.is_whitespace());
        assert!(seen.insert(c));
        assert_eq!(index_of(c), Some(i));
    }
    assert_eq!(index_of('!'), None);
    assert_eq!(index_of(' '), None);
}

#[test]
fn symbol_table_starts_with_digits_and_letters() {
    assert_eq!(symbol_for(0), '0');
    assert_eq!(symbol_for(9), '9');
    assert_eq!(symbol_for(10), 'A');
    assert_eq!(symbol_for(36), 'a');
    assert_eq!(symbol_for(62), '"');
    assert_eq!(symbol_for(92), '~');
    assert_eq!(symbol_for(93), '\u{a1}');
}

#[test]
fn longer_for_larger_magnitude() {
    for base in [2u8, 10, 94] {
        let mut last = 0;
        for v in 1u16..2000 {
            let len = encode(&v.to_le_bytes(), base).chars().count();
            assert!(len >= last);
            last = len;
        }
    }
}
