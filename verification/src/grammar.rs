//! What a character reference is, and what a buffer decodes to.
//!
//! These are the mathematical definitions that the contracts of the decoder
//! are stated over. A reference is described on the text that follows its
//! `&`; positions count from there.

use crate::ascii::{
    decimal_value, hex_value, is_digit, is_hex_digit, AMPERSAND, LOWER_X, NUMBER_SIGN, SEMICOLON,
    SPACE, UPPER_X,
};
use crate::table::named_entity;
use crate::utf8::{utf8_bytes, REPLACEMENT_CHARACTER};
use vstd::prelude::*;
use vstd::utf8::is_scalar;

verus! {

/// The least number of bytes before the `;` of a named reference.
pub const ENTITY_MIN_LENGTH: usize = 2;

/// The most bytes that a named reference takes after its `&`, the `;`
/// included.
pub const ENTITY_MAX_LENGTH: usize = 31;

/// The most digits that a numeric reference may have.
pub const MAX_DIGITS: usize = 8;

/// The first value that is no code point.
pub const CODEPOINT_LIMIT: u32 = 0x11_0000;

/// `ch` is a digit of the base in use.
pub open spec fn is_digit_of(ch: u8, hex: bool) -> bool {
    if hex {
        is_hex_digit(ch)
    } else {
        is_digit(ch)
    }
}

/// Where the run of digits that starts at `from` ends: the first position
/// from there on that holds no digit, or the end of `text`.
pub open spec fn digits_end(text: Seq<u8>, from: int, hex: bool) -> int
    decreases text.len() - from,
{
    if 0 <= from < text.len() && is_digit_of(text[from], hex) {
        digits_end(text, from + 1, hex)
    } else {
        from
    }
}

/// The number that the digits of `text` from `start` up to `end` denote,
/// most significant digit first.
pub open spec fn number_value(text: Seq<u8>, start: int, end: int, hex: bool) -> nat
    decreases end - start,
{
    if end <= start {
        0
    } else if hex {
        (number_value(text, start, end - 1, hex) * 16 + hex_value(text[end - 1])) as nat
    } else {
        (number_value(text, start, end - 1, hex) * 10 + decimal_value(text[end - 1])) as nat
    }
}

/// The scalar value that a numeric reference to `codepoint` decodes to: the
/// code point itself, or U+FFFD where it is zero, lies in `0xD800..=0xE000`
/// or is no code point at all. The band is one wider than the surrogates:
/// U+E000 is replaced too.
pub open spec fn scalar_of(codepoint: nat) -> u32 {
    if codepoint == 0 || 0xd800 <= codepoint <= 0xe000 || codepoint >= CODEPOINT_LIMIT {
        REPLACEMENT_CHARACTER
    } else {
        codepoint as u32
    }
}

/// What a numeric reference decodes to is always a scalar value, never
/// zero: it can be encoded as it is, and nothing is left to replace.
pub proof fn lemma_scalar_of_is_scalar(codepoint: nat)
    ensures
        is_scalar(scalar_of(codepoint)),
        scalar_of(codepoint) != 0,
        scalar_of(codepoint) == codepoint || scalar_of(codepoint) == REPLACEMENT_CHARACTER,
{
}

/// `text` is read as a numeric reference: it starts with `#` and has at
/// least three bytes.
pub open spec fn is_numeric(text: Seq<u8>) -> bool {
    text.len() >= 3 && text[0] == NUMBER_SIGN
}

/// Where the digits of a numeric reference start, and whether they are
/// hexadecimal: after `#` for a decimal digit, after `#x` or `#X` otherwise.
/// `None` where `text` goes on in neither way.
pub open spec fn numeric_prefix(text: Seq<u8>) -> Option<(int, bool)>
    recommends
        is_numeric(text),
{
    if is_digit(text[1]) {
        Some((1, false))
    } else if text[1] == LOWER_X || text[1] == UPPER_X {
        Some((2, true))
    } else {
        None
    }
}

/// The numeric reference at the start of `text`: the scalar value it stands
/// for and the number of bytes it takes, the `;` included. There is one
/// where a numeric prefix is followed by one to eight digits and a `;`.
pub open spec fn numeric_reference(text: Seq<u8>) -> Option<(u32, nat)>
    recommends
        is_numeric(text),
{
    match numeric_prefix(text) {
        Some((start, hex)) => {
            let end = digits_end(text, start, hex);
            if 1 <= end - start <= MAX_DIGITS && end < text.len() && text[end] == SEMICOLON {
                Some((scalar_of(number_value(text, start, end, hex)), (end + 1) as nat))
            } else {
                None
            }
        },
        None => None,
    }
}

/// Where the scan for the end of an entity name stops when it is at `from`:
/// at the first space or `;` from there on, at [`ENTITY_MAX_LENGTH`] or at
/// the end of `text`, whichever comes first.
pub open spec fn name_end(text: Seq<u8>, from: int) -> int
    decreases text.len() - from,
{
    if 0 <= from < text.len() && from < ENTITY_MAX_LENGTH && text[from] != SPACE && text[from]
        != SEMICOLON {
        name_end(text, from + 1)
    } else {
        from
    }
}

/// The named reference at the start of `text`: the characters it stands for
/// and the number of bytes it takes, the `;` included. There is one where the
/// scan from position [`ENTITY_MIN_LENGTH`] stops at a `;` and the table
/// lists the name before it.
pub open spec fn named_reference(text: Seq<u8>) -> Option<(Seq<u8>, nat)> {
    let end = name_end(text, ENTITY_MIN_LENGTH as int);
    if end < text.len() && end < ENTITY_MAX_LENGTH && text[end] == SEMICOLON {
        match named_entity(text.subrange(0, end)) {
            Some(characters) => Some((characters, (end + 1) as nat)),
            None => None,
        }
    } else {
        None
    }
}

/// The reference at the start of `text`, which is what follows an `&`: the
/// bytes it decodes to and the number of bytes of `text` it takes. Text that
/// starts with `#` and has three bytes or more holds a numeric reference or
/// none at all; any other text is read as a named one.
pub open spec fn reference(text: Seq<u8>) -> Option<(Seq<u8>, nat)> {
    if is_numeric(text) {
        match numeric_reference(text) {
            Some((scalar, consumed)) => Some((utf8_bytes(scalar), consumed)),
            None => None,
        }
    } else {
        named_reference(text)
    }
}

/// The decoding of `input`: every `&` that a reference follows is replaced,
/// together with the reference, by the bytes that the reference decodes to;
/// every other byte stands for itself.
pub open spec fn unescaped(input: Seq<u8>) -> Seq<u8>
    decreases input.len(),
    via unescaped_decreases
{
    if input.len() == 0 {
        Seq::empty()
    } else if input[0] != AMPERSAND {
        seq![input[0]] + unescaped(input.skip(1))
    } else {
        match reference(input.skip(1)) {
            Some((bytes, consumed)) => bytes + unescaped(input.skip(1 + consumed as int)),
            None => seq![AMPERSAND] + unescaped(input.skip(1)),
        }
    }
}

#[via_fn]
proof fn unescaped_decreases(input: Seq<u8>) {
    if input.len() > 0 && input[0] == AMPERSAND {
        lemma_reference_consumed(input.skip(1));
    }
}

/// A run of digits ends between its start and the end of the text, holds
/// digits only, and is not followed by a digit.
pub proof fn lemma_digits_end(text: Seq<u8>, from: int, hex: bool)
    requires
        0 <= from <= text.len(),
    ensures
        from <= digits_end(text, from, hex) <= text.len(),
        forall|k: int| from <= k < digits_end(text, from, hex) ==> is_digit_of(#[trigger] text[k], hex),
        digits_end(text, from, hex) < text.len() ==> !is_digit_of(
            text[digits_end(text, from, hex)],
            hex,
        ),
    decreases text.len() - from,
{
    if from < text.len() && is_digit_of(text[from], hex) {
        lemma_digits_end(text, from + 1, hex);
    }
}

/// The scan for the end of a name stops between its start and the end of the
/// text, and passes neither a space nor a `;`.
pub proof fn lemma_name_end(text: Seq<u8>, from: int)
    requires
        0 <= from <= text.len(),
    ensures
        from <= name_end(text, from) <= text.len(),
        forall|k: int|
            from <= k < name_end(text, from) ==> #[trigger] text[k] != SPACE && text[k]
                != SEMICOLON,
    decreases text.len() - from,
{
    if from < text.len() && from < ENTITY_MAX_LENGTH && text[from] != SPACE && text[from]
        != SEMICOLON {
        lemma_name_end(text, from + 1);
    }
}

/// A reference takes at least three bytes of the text, and no more than the
/// text has. A named one takes at most [`ENTITY_MAX_LENGTH`].
pub proof fn lemma_reference_consumed(text: Seq<u8>)
    ensures
        reference(text) matches Some((_, consumed)) ==> 3 <= consumed <= text.len(),
        named_reference(text) matches Some((_, consumed)) ==> consumed <= ENTITY_MAX_LENGTH,
{
    if is_numeric(text) {
        match numeric_prefix(text) {
            Some((start, hex)) => lemma_digits_end(text, start, hex),
            None => {},
        }
    }
    if text.len() >= ENTITY_MIN_LENGTH {
        lemma_name_end(text, ENTITY_MIN_LENGTH as int);
    }
}

} // verus!
