//! The decoder: one reference at a time, and a whole buffer.

use crate::ascii::{
    decimal_digit_value, hex_digit_value, isdigit, isxdigit, AMPERSAND, LOWER_X, NUMBER_SIGN,
    SEMICOLON, SPACE, UPPER_X,
};
use crate::grammar::{
    digits_end, is_digit_of, is_numeric, lemma_scalar_of_is_scalar, name_end, number_value,
    reference, unescaped, CODEPOINT_LIMIT, MAX_DIGITS,
};
pub use crate::grammar::{ENTITY_MAX_LENGTH, ENTITY_MIN_LENGTH};
use crate::lemmas::{
    decoded_up_to, lemma_scan_ampersand, lemma_scan_end, lemma_scan_plain_run, lemma_scan_start,
    lemma_unescaped_without_ampersand,
};
use crate::table::lookup;
use crate::utf8::{encode_utf8, REPLACEMENT_CHARACTER};
use std::borrow::Cow;
use vstd::prelude::*;
use vstd::slice::slice_subrange;

verus! {

/// `codepoint` with the next digit folded in, held at [`CODEPOINT_LIMIT`].
/// The clamp keeps a long run of digits from overflowing, and loses nothing:
/// a number that has reached the limit stays at or above it.
fn fold_digit(codepoint: u32, radix: u32, digit: u32) -> (r: u32)
    requires
        codepoint <= CODEPOINT_LIMIT,
        radix == 10 || radix == 16,
        digit < radix,
    ensures
        r == if codepoint * radix + digit < CODEPOINT_LIMIT {
            codepoint * radix + digit
        } else {
            CODEPOINT_LIMIT as int
        },
{
    let next: u32 = codepoint * radix + digit;
    if next < CODEPOINT_LIMIT {
        next
    } else {
        CODEPOINT_LIMIT
    }
}

/// Tells whether `ch` is a digit: a hexadecimal one if `hex`, else a decimal
/// one.
fn is_digit_in(ch: u8, hex: bool) -> (r: bool)
    ensures
        r == is_digit_of(ch, hex),
{
    if hex {
        isxdigit(&ch)
    } else {
        isdigit(ch)
    }
}

/// `number`, held at [`CODEPOINT_LIMIT`].
spec fn clamped(number: nat) -> int {
    if number < CODEPOINT_LIMIT {
        number as int
    } else {
        CODEPOINT_LIMIT as int
    }
}

/// Reads the digits of `text` from `start` on. Returns the position after
/// the last of them and the number they denote, held at
/// [`CODEPOINT_LIMIT`].
fn scan_digits(text: &[u8], start: usize, hex: bool) -> (r: (usize, u32))
    requires
        start <= text@.len(),
    ensures
        r.0 == digits_end(text@, start as int, hex),
        start <= r.0 <= text@.len(),
        r.1 == clamped(number_value(text@, start as int, r.0 as int, hex)),
{
    let mut codepoint: u32 = 0;
    let mut i: usize = start;
    while i < text.len() && is_digit_in(text[i], hex)
        invariant
            start <= i <= text@.len(),
            digits_end(text@, start as int, hex) == digits_end(text@, i as int, hex),
            codepoint == clamped(number_value(text@, start as int, i as int, hex)),
        decreases text@.len() - i,
    {
        codepoint = if hex {
            fold_digit(codepoint, 16, hex_digit_value(text[i]))
        } else {
            fold_digit(codepoint, 10, decimal_digit_value(text[i]))
        };
        i += 1;
    }
    (i, codepoint)
}

/// Decodes the reference at the start of `text`, which is what follows an
/// `&`. Returns the bytes it stands for and the number of bytes of `text` it
/// takes, its `;` included, or `None` where no reference starts there.
///
/// The bytes of a numeric reference are freshly encoded and owned; those of a
/// named one are borrowed from the table.
pub fn unescape(text: &[u8]) -> (r: Option<(Cow<'static, [u8]>, usize)>)
    ensures
        match r {
            Some((bytes, consumed)) => {
                &&& reference(text@) == Some((bytes@, consumed as nat))
                &&& bytes is Owned <==> is_numeric(text@)
            },
            None => reference(text@) is None,
        },
{
    if text.len() >= 3 && text[0] == NUMBER_SIGN {
        let (start, hex): (usize, bool) = if isdigit(text[1]) {
            (1, false)
        } else if text[1] == LOWER_X || text[1] == UPPER_X {
            (2, true)
        } else {
            return None;
        };
        let (end, number): (usize, u32) = scan_digits(text, start, hex);
        let num_digits: usize = end - start;
        if num_digits < 1 || num_digits > MAX_DIGITS || end >= text.len() || text[end] != SEMICOLON {
            return None;
        }
        let scalar: u32 = if number == 0 || (number >= 0xd800 && number <= 0xe000) || number
            >= CODEPOINT_LIMIT {
            REPLACEMENT_CHARACTER
        } else {
            number
        };
        proof {
            lemma_scalar_of_is_scalar(number_value(text@, start as int, end as int, hex));
        }
        return Some((Cow::Owned(encode_utf8(scalar)), end + 1));
    }
    let size: usize = if text.len() < ENTITY_MAX_LENGTH {
        text.len()
    } else {
        ENTITY_MAX_LENGTH
    };
    let mut i: usize = ENTITY_MIN_LENGTH;
    while i < size
        invariant
            ENTITY_MIN_LENGTH <= i,
            size <= text@.len(),
            size <= ENTITY_MAX_LENGTH,
            size == text@.len() || size == ENTITY_MAX_LENGTH,
            !is_numeric(text@),
            name_end(text@, ENTITY_MIN_LENGTH as int) == name_end(text@, i as int),
        decreases size - i,
    {
        if text[i] == SPACE {
            return None;
        }
        if text[i] == SEMICOLON {
            return match lookup(slice_subrange(text, 0, i)) {
                Some(characters) => Some((Cow::Borrowed(characters), i + 1)),
                None => None,
            };
        }
        i += 1;
    }
    None
}

/// The bytes that `cow` holds or points to.
fn as_bytes<'b>(cow: &'b Cow<'_, [u8]>) -> (r: &'b [u8])
    ensures
        r@ == cow@,
{
    match cow {
        Cow::Borrowed(borrowed) => *borrowed,
        Cow::Owned(owned) => owned.as_slice(),
    }
}

/// Appends `bytes` to `output`.
fn append(output: &mut Vec<u8>, bytes: &[u8])
    ensures
        final(output)@ == old(output)@ + bytes@,
{
    output.extend_from_slice(bytes);
}

/// Decodes every reference in `src`.
///
/// Each `&` that a reference follows is replaced, with the reference, by the
/// bytes that the reference stands for; an `&` that none follows stays, and
/// the scan goes on right behind it.
///
/// Input that is not empty and holds no `&` is handed back as it came:
/// borrowed input is shared, not copied. Any other result is a new buffer.
pub fn unescape_html<'a>(src: &Cow<'a, [u8]>) -> (r: Cow<'a, [u8]>)
    ensures
        r@ == unescaped(src@),
        !src@.contains(AMPERSAND) ==> r@ == src@,
        r is Borrowed <==> *src is Borrowed && src@.len() > 0 && !src@.contains(AMPERSAND),
        r is Borrowed ==> r == *src,
{
    let bytes: &[u8] = as_bytes(src);
    let size: usize = bytes.len();
    let mut i: usize = 0;
    let mut v: Vec<u8> = Vec::new();
    let ghost mut ampersand_at: int = 0;
    proof {
        lemma_scan_start(bytes@);
        if !bytes@.contains(AMPERSAND) {
            lemma_unescaped_without_ampersand(bytes@);
        }
    }

    while i < size
        invariant
            bytes@ == src@,
            size == bytes@.len(),
            i <= size,
            decoded_up_to(bytes@, i as int, v@),
            i > 0 ==> 0 <= ampersand_at < i && bytes@[ampersand_at] == AMPERSAND,
            !bytes@.contains(AMPERSAND) ==> unescaped(bytes@) == bytes@,
        decreases size - i,
    {
        let org: usize = i;
        while i < size && bytes[i] != AMPERSAND
            invariant
                size == bytes@.len(),
                org <= i <= size,
                forall|k: int| org <= k < i ==> bytes@[k] != AMPERSAND,
            decreases size - i,
        {
            i += 1;
        }

        if i > org {
            if org == 0 && i >= size {
                return match src {
                    Cow::Borrowed(borrowed) => Cow::Borrowed(*borrowed),
                    Cow::Owned(owned) => Cow::Owned(owned.clone()),
                };
            }
            proof {
                lemma_scan_plain_run(bytes@, v@, org as int, i as int);
            }
            append(&mut v, slice_subrange(bytes, org, i));
        }
        if i >= size {
            proof {
                lemma_scan_end(bytes@, v@);
            }
            return Cow::Owned(v);
        }
        proof {
            lemma_scan_ampersand(bytes@, v@, i as int);
            ampersand_at = i as int;
        }

        i += 1;
        match unescape(slice_subrange(bytes, i, size)) {
            Some((chs, consumed)) => {
                append(&mut v, as_bytes(&chs));
                i += consumed;
            },
            None => v.push(AMPERSAND),
        }
    }
    proof {
        lemma_scan_end(bytes@, v@);
    }
    Cow::Owned(v)
}

} // verus!
