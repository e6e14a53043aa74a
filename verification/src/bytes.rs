//! Numbers as bytes: little-endian words, 24-bit big-endian samples and
//! two's complement.

use vstd::prelude::*;

verus! {

/// The value of two little-endian bytes.
pub open spec fn le16_value(lo: u8, hi: u8) -> int {
    lo + 256 * hi
}

/// The value of four little-endian bytes.
pub open spec fn le32_value(b0: u8, b1: u8, b2: u8, b3: u8) -> int {
    b0 + 256 * b1 + 65536 * b2 + 16777216 * b3
}

/// `value` read as a two's complement number of `modulus` states.
pub open spec fn signed(value: int, modulus: int) -> int {
    if 2 * value >= modulus {
        value - modulus
    } else {
        value
    }
}

/// The `index`-th byte of `value` in two's complement, counted from the least
/// significant one.
pub open spec fn byte_of(value: int, index: int) -> u8 {
    if index == 0 {
        (value % 256) as u8
    } else if index == 1 {
        ((value / 256) % 256) as u8
    } else if index == 2 {
        ((value / 65536) % 256) as u8
    } else {
        ((value / 16777216) % 256) as u8
    }
}

/// The four little-endian bytes of `value`.
pub open spec fn le32_bytes(value: int) -> Seq<u8> {
    seq![byte_of(value, 0), byte_of(value, 1), byte_of(value, 2), byte_of(value, 3)]
}

/// The two little-endian bytes of `value`.
pub open spec fn le16_bytes(value: int) -> Seq<u8> {
    seq![byte_of(value, 0), byte_of(value, 1)]
}

/// A 24-bit two's complement sample from its big-endian bytes.
pub open spec fn be24_value(b0: u8, b1: u8, b2: u8) -> int {
    signed(65536 * b0 + 256 * b1 + b2, 16777216)
}

/// The 24-bit two's complement number of three bytes.
pub open spec fn sample_of(high: u8, middle: u8, low: u8) -> int {
    if high < 128 {
        65536 * high + 256 * middle + low
    } else {
        65536 * high + 256 * middle + low - 16777216
    }
}

/// Whether `sample` fits in 24 bits of two's complement.
pub open spec fn is_sample24(sample: int) -> bool {
    -0x80_0000 <= sample < 0x80_0000
}

/// An `i32` cast to `u32` keeps its bits.
pub proof fn lemma_i32_as_u32(value: i32)
    ensures
        (value as u32) == (if value < 0 { value + 4294967296 } else { value as int }),
{
    assert((value as u32) == (if value < 0 { value + 4294967296 } else { value as int }))
        by (bit_vector);
}

/// A `u64` cast to `u32` keeps the low half.
pub proof fn lemma_u64_as_u32(value: u64)
    ensures
        (value as u32) == value % 4294967296,
{
    assert((value as u32) == value % 4294967296) by (bit_vector);
}

/// An arithmetic shift by a byte rounds down.
pub proof fn lemma_shift_right_8(value: i32)
    ensures
        (value >> 8) == (value as int) / 256,
{
    let shifted = value >> 8;
    assert(256 * shifted <= value && value < 256 * shifted + 256) by (bit_vector)
        requires
            shifted == value >> 8,
    ;
}

/// The bytes of a number do not change when a multiple of 2^32 is added.
pub proof fn lemma_bytes_modulo(value: int)
    ensures
        byte_of(value + 4294967296, 0) == byte_of(value, 0),
        byte_of(value + 4294967296, 1) == byte_of(value, 1),
        byte_of(value + 4294967296, 2) == byte_of(value, 2),
        byte_of(value + 4294967296, 3) == byte_of(value, 3),
{
    assert((value + 4294967296) / 256 == value / 256 + 16777216);
    assert((value + 4294967296) / 65536 == value / 65536 + 65536);
    assert((value + 4294967296) / 16777216 == value / 16777216 + 256);
}

/// Reading the low three bytes of a 24-bit sample back gives the sample.
pub proof fn law_be24_round_trip(sample: int)
    requires
        is_sample24(sample),
    ensures
        be24_value(byte_of(sample, 2), byte_of(sample, 1), byte_of(sample, 0)) == sample,
{
}

/// The bytes of a number, each by its weight, add up to it modulo 2^32, and to
/// the number itself where it has no more bytes.
pub proof fn law_bytes_add_up(value: int)
    ensures
        (value - (byte_of(value, 0) + 256 * byte_of(value, 1) + 65536 * byte_of(value, 2) + 16777216
            * byte_of(value, 3))) % 4294967296 == 0,
        0 <= value < 65536 ==> value == byte_of(value, 0) + 256 * byte_of(value, 1),
        le16_bytes(value) == seq![byte_of(value, 0), byte_of(value, 1)],
        le32_bytes(value) == le16_bytes(value) + seq![byte_of(value, 2), byte_of(value, 3)],
{
    assert(le32_bytes(value) =~= le16_bytes(value) + seq![byte_of(value, 2), byte_of(value, 3)]);
    let q1 = value / 256;
    let q2 = value / 65536;
    let q3 = value / 16777216;
    let q4 = q3 / 256;
    assert(value == 256 * q1 + byte_of(value, 0));
    assert(q2 == q1 / 256);
    assert(q1 == 256 * q2 + byte_of(value, 1));
    assert(q3 == q2 / 256);
    assert(q2 == 256 * q3 + byte_of(value, 2));
    assert(q3 == 256 * q4 + byte_of(value, 3));
    let sum = byte_of(value, 0) + 256 * byte_of(value, 1) + 65536 * byte_of(value, 2) + 16777216
        * byte_of(value, 3);
    assert(value - sum == 4294967296 * q4);
}

/// The low three bytes of a number are those of a 24-bit sample that differs
/// from it by a multiple of 2^24, if at all.
pub proof fn law_low_bytes_make_a_sample(value: int)
    ensures
        (value - sample_of(byte_of(value, 2), byte_of(value, 1), byte_of(value, 0))) % 16777216
            == 0,
        is_sample24(value) ==> value == sample_of(
            byte_of(value, 2),
            byte_of(value, 1),
            byte_of(value, 0),
        ),
{
    let q1 = value / 256;
    let q2 = value / 65536;
    let q3 = q2 / 256;
    assert(value == 256 * q1 + byte_of(value, 0));
    assert(q2 == q1 / 256);
    assert(q1 == 256 * q2 + byte_of(value, 1));
    assert(q2 == 256 * q3 + byte_of(value, 2));
    let sum = 65536 * byte_of(value, 2) + 256 * byte_of(value, 1) + byte_of(value, 0);
    assert(value - sum == 16777216 * q3);
}

/// Little-endian words weigh their first byte least.
pub proof fn law_words_begin_with_the_low_byte(b0: u8, b1: u8, b2: u8, b3: u8)
    ensures
        le16_value(b0, b1) == b0 + 256 * b1,
        le32_value(b0, b1, b2, b3) == le16_value(b0, b1) + 65536 * le16_value(b2, b3),
{
}

/// Three big-endian bytes are the number of 24 bits that they add up to, less
/// 2^24 where the top bit is set.
pub proof fn law_samples_are_twos_complement(high: u8, middle: u8, low: u8)
    ensures
        be24_value(high, middle, low) == sample_of(high, middle, low),
        -0x80_0000 <= be24_value(high, middle, low) < 0x80_0000,
        (be24_value(high, middle, low) - (65536 * high + 256 * middle + low)) % 16777216 == 0,
{
}

/// The four bytes of a 32-bit number read back as that number.
pub proof fn law_le32_round_trip(value: int)
    requires
        0 <= value < 4294967296,
    ensures
        le32_value(byte_of(value, 0), byte_of(value, 1), byte_of(value, 2), byte_of(value, 3))
            == value,
{
}

/// The two bytes of a 16-bit number read back as that number.
pub proof fn law_le16_round_trip(value: int)
    requires
        0 <= value < 65536,
    ensures
        le16_value(byte_of(value, 0), byte_of(value, 1)) == value,
{
}

pub fn u16_from_le(lo: u8, hi: u8) -> (value: u16)
    ensures
        value == le16_value(lo, hi),
{
    lo as u16 + 256 * (hi as u16)
}

pub fn u32_from_le(b0: u8, b1: u8, b2: u8, b3: u8) -> (value: u32)
    ensures
        value == le32_value(b0, b1, b2, b3),
{
    b0 as u32 + 256 * (b1 as u32) + 65536 * (b2 as u32) + 16777216 * (b3 as u32)
}

pub fn i16_from_le(lo: u8, hi: u8) -> (value: i16)
    ensures
        value == signed(le16_value(lo, hi), 65536),
{
    let value: i32 = lo as i32 + 256 * (hi as i32);
    if value >= 32768 {
        (value - 65536) as i16
    } else {
        value as i16
    }
}

pub fn i32_from_le(b0: u8, b1: u8, b2: u8, b3: u8) -> (value: i32)
    ensures
        value == signed(le32_value(b0, b1, b2, b3), 4294967296),
{
    let value: i64 = b0 as i64 + 256 * (b1 as i64) + 65536 * (b2 as i64) + 16777216 * (b3 as i64);
    if value >= 2147483648 {
        (value - 4294967296) as i32
    } else {
        value as i32
    }
}

/// The `index`-th byte of `value`, counted from the least significant one.
pub fn i32_byte(value: i32, index: usize) -> (byte: u8)
    requires
        index < 4,
    ensures
        byte == byte_of(value as int, index as int),
{
    let bits: u32 = value as u32;
    proof {
        lemma_i32_as_u32(value);
        lemma_bytes_modulo(value as int);
    }
    if index == 0 {
        (bits % 256) as u8
    } else if index == 1 {
        ((bits / 256) % 256) as u8
    } else if index == 2 {
        ((bits / 65536) % 256) as u8
    } else {
        ((bits / 16777216) % 256) as u8
    }
}

/// The `index`-th byte of `value`, counted from the least significant one.
pub fn u32_byte(value: u32, index: usize) -> (byte: u8)
    requires
        index < 4,
    ensures
        byte == byte_of(value as int, index as int),
{
    if index == 0 {
        (value % 256) as u8
    } else if index == 1 {
        ((value / 256) % 256) as u8
    } else if index == 2 {
        ((value / 65536) % 256) as u8
    } else {
        ((value / 16777216) % 256) as u8
    }
}

} // verus!
