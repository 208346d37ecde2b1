//! Relevance scores as integers that are ordered as the scores are.
use vstd::prelude::*;

verus! {

/// The order key of a 32-bit float with the given bits: the magnitude, with the
/// sign. Of two floats that are numbers, the lesser has the lesser key, and both
/// zeros have the same.
pub open spec fn key_of_bits(bits: u32) -> int {
    if bits < 0x8000_0000 {
        bits as int
    } else {
        0x8000_0000 - bits
    }
}

pub fn score_key(bits: u32) -> (r: i32)
    ensures
        r == key_of_bits(bits),
{
    if bits < 0x8000_0000 {
        bits as i32
    } else {
        -((bits - 0x8000_0000) as i32)
    }
}

/// The bits of a float with the given order key; positive zero for zero.
pub fn score_bits(key: i32) -> (r: u32)
    requires
        key > i32::MIN,
    ensures
        key_of_bits(r) == key,
        key == 0 ==> r == 0,
{
    if key >= 0 {
        key as u32
    } else {
        0x8000_0000 + (-key) as u32
    }
}

/// Bits and key stand for each other, up to the sign of zero.
pub proof fn law_keys_tell_bits_apart(a: u32, b: u32)
    requires
        key_of_bits(a) == key_of_bits(b),
    ensures
        a == b || (key_of_bits(a) == 0 && (a == 0 || a == 0x8000_0000) && (b == 0 || b
            == 0x8000_0000)),
{
}

/// Keys are ordered as scores are: of two that are not negative the one with the
/// greater bits, of two that are negative the one with the lesser, and every
/// negative one but zero below all others.
pub proof fn law_keys_are_ordered_as_scores(a: u32, b: u32)
    ensures
        a < b < 0x8000_0000 ==> key_of_bits(a) < key_of_bits(b),
        0x8000_0000 <= a < b ==> key_of_bits(a) > key_of_bits(b),
        a > 0x8000_0000 && b < 0x8000_0000 ==> key_of_bits(a) < key_of_bits(b),
        key_of_bits(0) == 0,
        key_of_bits(0x8000_0000) == 0,
{
}

}
