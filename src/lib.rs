//! Encoding of binary data as text in any radix from 2 to 94.
//!
//! A byte buffer is read as one unsigned integer, little-endian (its first
//! byte is the least significant), and written as its digits in the chosen
//! base, least significant digit first, with one symbol of a fixed alphabet of
//! 94 printable characters per digit. Decoding reads the digits back and gives
//! the shortest little-endian buffer of the value. A buffer worth zero encodes
//! to the empty string, so zero bytes at the end of a buffer do not survive a
//! round trip.
pub mod alphabet;
pub mod codec;
pub mod laws;
pub mod natural;

pub use codec::{decode, encode, DecodeError};
