//! UTF-8 encoding of one Unicode scalar value.
//!
//! [`utf8_bytes`] states the encoding by arithmetic, so that it can be
//! evaluated on given values; [`lemma_utf8_bytes_is_encode_scalar`] shows that
//! it is the encoding that `vstd::utf8` defines bit by bit.

use vstd::prelude::*;
use vstd::utf8::{encode_scalar, encode_utf8 as encode_chars, is_scalar};

verus! {

/// The code point U+FFFD, REPLACEMENT CHARACTER.
pub const REPLACEMENT_CHARACTER: u32 = 0xfffd;

/// The UTF-8 encoding of `scalar`: the payload is cut into groups of six
/// bits, the first byte tells how many bytes there are, and each later byte
/// starts with the bits `10`.
pub open spec fn utf8_bytes(scalar: u32) -> Seq<u8>
    recommends
        is_scalar(scalar),
{
    if scalar < 0x80 {
        seq![scalar as u8]
    } else if scalar < 0x800 {
        seq![(0xc0 + scalar / 0x40) as u8, (0x80 + scalar % 0x40) as u8]
    } else if scalar < 0x1_0000 {
        seq![
            (0xe0 + scalar / 0x1000) as u8,
            (0x80 + scalar / 0x40 % 0x40) as u8,
            (0x80 + scalar % 0x40) as u8,
        ]
    } else {
        seq![
            (0xf0 + scalar / 0x4_0000) as u8,
            (0x80 + scalar / 0x1000 % 0x40) as u8,
            (0x80 + scalar / 0x40 % 0x40) as u8,
            (0x80 + scalar % 0x40) as u8,
        ]
    }
}

/// On scalar values, [`utf8_bytes`] is the encoding of `vstd::utf8`.
pub proof fn lemma_utf8_bytes_is_encode_scalar(scalar: u32)
    requires
        is_scalar(scalar),
    ensures
        utf8_bytes(scalar) == encode_scalar(scalar),
{
    if scalar < 0x80 {
        assert(scalar as u8 == (scalar & 0x7f) as u8) by (bit_vector)
            requires
                scalar < 0x80,
        ;
    } else if scalar < 0x800 {
        assert((0xc0 + scalar / 0x40) as u8 == 0xc0 | ((scalar >> 6) & 0x1f) as u8
            && (0x80 + scalar % 0x40) as u8 == 0x80 | (scalar & 0x3f) as u8) by (bit_vector)
            requires
                0x80 <= scalar < 0x800,
        ;
    } else if scalar < 0x1_0000 {
        assert((0xe0 + scalar / 0x1000) as u8 == 0xe0 | ((scalar >> 12) & 0x0f) as u8
            && (0x80 + scalar / 0x40 % 0x40) as u8 == 0x80 | ((scalar >> 6) & 0x3f) as u8
            && (0x80 + scalar % 0x40) as u8 == 0x80 | (scalar & 0x3f) as u8) by (bit_vector)
            requires
                0x800 <= scalar < 0x1_0000,
        ;
    } else {
        assert((0xf0 + scalar / 0x4_0000) as u8 == 0xf0 | ((scalar >> 18) & 0x7) as u8
            && (0x80 + scalar / 0x1000 % 0x40) as u8 == 0x80 | ((scalar >> 12) & 0x3f) as u8
            && (0x80 + scalar / 0x40 % 0x40) as u8 == 0x80 | ((scalar >> 6) & 0x3f) as u8
            && (0x80 + scalar % 0x40) as u8 == 0x80 | (scalar & 0x3f) as u8) by (bit_vector)
            requires
                0x1_0000 <= scalar <= 0x10_ffff,
        ;
    }
}

/// The encoding of a scalar value is the UTF-8 text of the one character
/// that it is.
pub proof fn lemma_utf8_bytes_is_text(scalar: u32)
    requires
        is_scalar(scalar),
    ensures
        utf8_bytes(scalar) == encode_chars(seq![scalar as char]),
{
    let text = seq![scalar as char];
    lemma_utf8_bytes_is_encode_scalar(scalar);
    assert(encode_chars(text.drop_first()) =~= Seq::<u8>::empty());
}

/// The six bits of `scalar` that start at bit `shift`, as a continuation
/// byte `10xxxxxx`.
fn continuation_byte(scalar: u32, shift: u32) -> (r: u8)
    requires
        shift == 0 || shift == 6 || shift == 12,
    ensures
        shift == 0 ==> r == 0x80 + scalar % 0x40,
        shift == 6 ==> r == 0x80 + scalar / 0x40 % 0x40,
        shift == 12 ==> r == 0x80 + scalar / 0x1000 % 0x40,
{
    let low: u32 = (scalar >> shift) & 0x3f;
    assert(low < 0x40 && (shift == 0 ==> low == scalar % 0x40) && (shift == 6 ==> low == scalar
        / 0x40 % 0x40) && (shift == 12 ==> low == scalar / 0x1000 % 0x40)) by (bit_vector)
        requires
            low == (scalar >> shift) & 0x3f,
    ;
    0x80 + low as u8
}

/// Encodes the scalar value `scalar` as UTF-8: one to four bytes, which are
/// the text of the character that `scalar` is.
pub fn encode_utf8(scalar: u32) -> (bytes: Vec<u8>)
    requires
        is_scalar(scalar),
    ensures
        bytes@ == utf8_bytes(scalar),
        bytes@ == encode_chars(seq![scalar as char]),
        1 <= bytes@.len() <= 4,
{
    let mut bytes: Vec<u8> = Vec::new();
    if scalar < 0x80 {
        bytes.push(scalar as u8);
    } else if scalar < 0x800 {
        let high: u32 = scalar >> 6;
        assert(high == scalar / 0x40 && high < 0x20) by (bit_vector)
            requires
                high == scalar >> 6,
                scalar < 0x800,
        ;
        bytes.push(0xc0 + high as u8);
        bytes.push(continuation_byte(scalar, 0));
    } else if scalar < 0x1_0000 {
        let high: u32 = scalar >> 12;
        assert(high == scalar / 0x1000 && high < 0x10) by (bit_vector)
            requires
                high == scalar >> 12,
                scalar < 0x1_0000,
        ;
        bytes.push(0xe0 + high as u8);
        bytes.push(continuation_byte(scalar, 6));
        bytes.push(continuation_byte(scalar, 0));
    } else {
        let high: u32 = scalar >> 18;
        assert(high == scalar / 0x4_0000 && high < 0x8) by (bit_vector)
            requires
                high == scalar >> 18,
                scalar <= 0x10_ffff,
        ;
        bytes.push(0xf0 + high as u8);
        bytes.push(continuation_byte(scalar, 12));
        bytes.push(continuation_byte(scalar, 6));
        bytes.push(continuation_byte(scalar, 0));
    }
    proof {
        lemma_utf8_bytes_is_text(scalar);
    }
    bytes
}

} // verus!
