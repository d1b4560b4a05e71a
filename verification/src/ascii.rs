//! The ASCII bytes that the reference grammar gives a meaning to, and the
//! digit classes of numeric references.

use vstd::prelude::*;

verus! {

/// `&`, which introduces every reference.
pub const AMPERSAND: u8 = 0x26;

/// `#`, which marks a reference as numeric.
pub const NUMBER_SIGN: u8 = 0x23;

/// `;`, which ends every reference.
pub const SEMICOLON: u8 = 0x3b;

/// The space character, which no entity name holds.
pub const SPACE: u8 = 0x20;

/// `x`, one of the two hexadecimal prefixes.
pub const LOWER_X: u8 = 0x78;

/// `X`, the other hexadecimal prefix.
pub const UPPER_X: u8 = 0x58;

/// `ch` is one of `0` to `9`.
pub open spec fn is_digit(ch: u8) -> bool {
    0x30 <= ch <= 0x39
}

/// `ch` is one of `0` to `9`, `a` to `f` or `A` to `F`.
pub open spec fn is_hex_digit(ch: u8) -> bool {
    is_digit(ch) || 0x61 <= ch <= 0x66 || 0x41 <= ch <= 0x46
}

/// The number that the decimal digit `ch` stands for.
pub open spec fn decimal_value(ch: u8) -> int
    recommends
        is_digit(ch),
{
    ch - 0x30
}

/// The number that the hexadecimal digit `ch` stands for, in either case.
pub open spec fn hex_value(ch: u8) -> int
    recommends
        is_hex_digit(ch),
{
    if is_digit(ch) {
        ch - 0x30
    } else if ch >= 0x61 {
        ch - 0x61 + 10
    } else {
        ch - 0x41 + 10
    }
}

/// Tells whether `ch` is an ASCII decimal digit.
pub fn isdigit(ch: u8) -> (r: bool)
    ensures
        r == is_digit(ch),
{
    ch >= 0x30 && ch <= 0x39
}

/// Tells whether `ch` is an ASCII hexadecimal digit.
pub fn isxdigit(ch: &u8) -> (r: bool)
    ensures
        r == is_hex_digit(*ch),
{
    (*ch >= 0x30 && *ch <= 0x39) || (*ch >= 0x61 && *ch <= 0x66) || (*ch >= 0x41 && *ch <= 0x46)
}

/// The value of a decimal digit.
pub fn decimal_digit_value(ch: u8) -> (r: u32)
    requires
        is_digit(ch),
    ensures
        r == decimal_value(ch),
{
    ch as u32 - 0x30
}

/// The value of a hexadecimal digit. Setting bit 5 folds the upper-case
/// letters onto the lower-case ones and leaves the digits as they are; modulo
/// 39 the digits then fall on 9 to 18 and the letters on 19 to 24.
pub fn hex_digit_value(ch: u8) -> (r: u32)
    requires
        is_hex_digit(ch),
    ensures
        r == hex_value(ch),
{
    let folded: u32 = ch as u32 | 32;
    assert(folded % 39 - 9 == (if 0x30 <= ch <= 0x39 {
        ch - 0x30
    } else if ch >= 0x61 {
        ch - 0x61 + 10
    } else {
        ch - 0x41 + 10
    }) && folded % 39 >= 9) by (bit_vector)
        requires
            folded == ch as u32 | 32,
            (0x30 <= ch <= 0x39) || (0x61 <= ch <= 0x66) || (0x41 <= ch <= 0x46),
    ;
    folded % 39 - 9
}

} // verus!
