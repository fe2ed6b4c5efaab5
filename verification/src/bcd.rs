//! Binary-coded decimal, as clock chips keep it: tens in the high nibble,
//! units in the low one.

use vstd::prelude::*;

verus! {

/// The BCD form of a value: its tens, as far as a nibble holds them, and
/// its units.
pub open spec fn bcd(value: int) -> int {
    ((value / 10) % 16) * 16 + value % 10
}

/// The value that a byte stands for when read as BCD.
pub open spec fn bcd_value(byte: int) -> int {
    (byte / 16) * 10 + byte % 16
}

/// Both nibbles of a byte are decimal digits.
pub open spec fn is_bcd(byte: int) -> bool {
    0 <= byte <= 0x99 && byte % 16 <= 9
}

/// Encodes a value.
pub fn to_bcd(value: u8) -> (byte: u8)
    ensures
        byte as int == bcd(value as int),
{
    assert((((value / 10) << 4) | (value % 10)) as int == ((value as int / 10) % 16) * 16 + value
        as int % 10) by (bit_vector);
    ((value / 10) << 4) | (value % 10)
}

/// Decodes a byte.
pub fn from_bcd(byte: u8) -> (value: u8)
    ensures
        value as int == bcd_value(byte as int),
{
    assert((byte >> 4) as int == byte as int / 16 && (byte & 0x0F) as int == byte as int % 16)
        by (bit_vector);
    (byte >> 4) * 10 + (byte & 0x0F)
}

/// Every two-digit value survives encoding, and its code is proper BCD.
pub proof fn lemma_encode_decode(value: int)
    requires
        0 <= value <= 99,
    ensures
        bcd_value(bcd(value)) == value,
        is_bcd(bcd(value)),
{
}

/// Every proper BCD byte survives decoding.
pub proof fn lemma_decode_encode(byte: int)
    requires
        is_bcd(byte),
    ensures
        bcd(bcd_value(byte)) == byte,
        0 <= bcd_value(byte) <= 99,
{
}

/// The nibbles of a code, of values that have more than two digits too: the
/// units below, and above them as much of the tens as a nibble holds. A byte
/// counts ten for each unit of its high nibble and one for each of its low
/// one, decimal digits or not.
pub proof fn lemma_nibbles(value: int, byte: int)
    requires
        0 <= value <= 255,
        0 <= byte <= 255,
    ensures
        bcd(value) % 16 == value % 10,
        bcd(value) / 16 == (value / 10) % 16,
        0 <= bcd(value) <= 255,
        bcd_value(byte) == 10 * (byte / 16) + byte % 16,
{
}

} // verus!
