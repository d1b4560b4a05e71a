//! What holds of the decoding of a whole buffer.

use crate::ascii::AMPERSAND;
use crate::grammar::{digits_end, lemma_reference_consumed, number_value, reference, unescaped};
use vstd::prelude::*;

verus! {

/// A run of bytes that holds no `&` decodes to itself: the decoding of
/// `input` from `from` on is the run up to `to`, then the decoding from `to`
/// on.
pub proof fn lemma_unescaped_plain_run(input: Seq<u8>, from: int, to: int)
    requires
        0 <= from <= to <= input.len(),
        forall|k: int| from <= k < to ==> input[k] != AMPERSAND,
    ensures
        unescaped(input.skip(from)) == input.subrange(from, to) + unescaped(input.skip(to)),
    decreases to - from,
{
    if from < to {
        lemma_unescaped_plain_run(input, from + 1, to);
        assert(input.skip(from).skip(1) =~= input.skip(from + 1));
    }
}

/// An `&` that a reference follows is replaced, with the reference, by what
/// the reference decodes to.
pub proof fn lemma_unescaped_reference(rest: Seq<u8>)
    requires
        reference(rest) is Some,
    ensures
        unescaped(seq![AMPERSAND] + rest) == reference(rest).unwrap().0 + unescaped(
            rest.skip(reference(rest).unwrap().1 as int),
        ),
{
    let input = seq![AMPERSAND] + rest;
    let consumed = reference(rest).unwrap().1;
    lemma_reference_consumed(rest);
    assert(input.skip(1) =~= rest);
    assert(input.skip(1 + consumed as int) =~= rest.skip(consumed as int));
}

/// An `&` that no reference follows stands for itself, and decoding goes on
/// right behind it.
pub proof fn lemma_unescaped_literal_ampersand(rest: Seq<u8>)
    requires
        reference(rest) is None,
    ensures
        unescaped(seq![AMPERSAND] + rest) == seq![AMPERSAND] + unescaped(rest),
{
    assert((seq![AMPERSAND] + rest).skip(1) =~= rest);
}

/// The scan of `input` has reached position `at` with `output` written:
/// `output`, then the decoding of what is left, is the decoding of `input`.
pub closed spec fn decoded_up_to(input: Seq<u8>, at: int, output: Seq<u8>) -> bool {
    &&& 0 <= at <= input.len()
    &&& output + unescaped(input.skip(at)) == unescaped(input)
}

/// Before anything is read, nothing is written.
pub proof fn lemma_scan_start(input: Seq<u8>)
    ensures
        decoded_up_to(input, 0, Seq::empty()),
{
    assert(input.skip(0) =~= input);
}

/// The scan passes a run of bytes that holds no `&` by copying it.
pub proof fn lemma_scan_plain_run(input: Seq<u8>, output: Seq<u8>, from: int, to: int)
    requires
        decoded_up_to(input, from, output),
        from <= to <= input.len(),
        forall|k: int| from <= k < to ==> input[k] != AMPERSAND,
    ensures
        decoded_up_to(input, to, output + input.subrange(from, to)),
{
    lemma_unescaped_plain_run(input, from, to);
    let run = input.subrange(from, to);
    let rest = unescaped(input.skip(to));
    assert((output + run) + rest =~= output + (run + rest));
}

/// The scan passes an `&` at `at` by writing what the reference behind it
/// decodes to and skipping the reference, or, where none follows, by
/// copying the `&`.
pub proof fn lemma_scan_ampersand(input: Seq<u8>, output: Seq<u8>, at: int)
    requires
        decoded_up_to(input, at, output),
        at < input.len(),
        input[at] == AMPERSAND,
    ensures
        match reference(input.skip(at + 1)) {
            Some((bytes, consumed)) => {
                &&& at + 1 + consumed <= input.len()
                &&& decoded_up_to(input, at + 1 + consumed, output + bytes)
            },
            None => decoded_up_to(input, at + 1, output.push(AMPERSAND)),
        },
{
    let rest = input.skip(at + 1);
    assert(input.skip(at) =~= seq![AMPERSAND] + rest);
    match reference(rest) {
        Some((bytes, consumed)) => {
            lemma_reference_consumed(rest);
            lemma_unescaped_reference(rest);
            assert(rest.skip(consumed as int) =~= input.skip(at + 1 + consumed));
            let tail = unescaped(input.skip(at + 1 + consumed));
            assert((output + bytes) + tail =~= output + (bytes + tail));
        },
        None => {
            lemma_unescaped_literal_ampersand(rest);
            let tail = unescaped(rest);
            assert(output.push(AMPERSAND) + tail =~= output + (seq![AMPERSAND] + tail));
        },
    }
}

/// At the end of `input`, what is written is the decoding of `input`.
pub proof fn lemma_scan_end(input: Seq<u8>, output: Seq<u8>)
    requires
        decoded_up_to(input, input.len() as int, output),
    ensures
        output == unescaped(input),
{
    assert(input.skip(input.len() as int) =~= Seq::<u8>::empty());
}

/// Every `&` of `input` from `from` on is followed by text that starts no
/// reference.
pub open spec fn no_reference_from(input: Seq<u8>, from: int) -> bool {
    forall|k: int|
        from <= k < input.len() && #[trigger] input[k] == AMPERSAND ==> reference(
            input.skip(k + 1),
        ) is None
}

/// Where no `&` from `from` on starts a reference, the rest of `input`
/// decodes to itself.
proof fn lemma_unescaped_suffix_without_references(input: Seq<u8>, from: int)
    requires
        0 <= from <= input.len(),
        no_reference_from(input, from),
    ensures
        unescaped(input.skip(from)) == input.skip(from),
    decreases input.len() - from,
{
    let rest = input.skip(from);
    if from < input.len() {
        lemma_unescaped_suffix_without_references(input, from + 1);
        assert(rest.skip(1) =~= input.skip(from + 1));
    }
}

/// Text in which no `&` starts a reference decodes to itself.
pub proof fn lemma_unescaped_without_references(input: Seq<u8>)
    requires
        no_reference_from(input, 0),
    ensures
        unescaped(input) == input,
{
    lemma_unescaped_suffix_without_references(input, 0);
    assert(input.skip(0) =~= input);
}

/// A second pass changes nothing where, in what the first pass produced, no
/// `&` is followed by a reference: each `&` that the first pass decoded or
/// left then stays as it is.
pub proof fn lemma_second_pass_keeps_plain_ampersands(input: Seq<u8>)
    requires
        no_reference_from(unescaped(input), 0),
    ensures
        unescaped(unescaped(input)) == unescaped(input),
{
    lemma_unescaped_without_references(unescaped(input));
}

/// Text that holds no `&` decodes to itself.
pub proof fn lemma_unescaped_without_ampersand(input: Seq<u8>)
    requires
        !input.contains(AMPERSAND),
    ensures
        unescaped(input) == input,
{
    lemma_unescaped_without_references(input);
}

/// Decoding is not idempotent: what a reference decodes to may, with the
/// text behind it, spell a reference again. `&#38;#38;` decodes to `&#38;`,
/// which decodes to `&`.
pub proof fn lemma_unescaped_not_idempotent()
    ensures
        exists|input: Seq<u8>| unescaped(unescaped(input)) != unescaped(input),
{
    let twice: Seq<u8> = seq![0x26, 0x23, 0x33, 0x38, 0x3b, 0x23, 0x33, 0x38, 0x3b];
    let once: Seq<u8> = seq![0x26, 0x23, 0x33, 0x38, 0x3b];
    let number: Seq<u8> = seq![0x23, 0x33, 0x38, 0x3b];
    let ampersand: Seq<u8> = seq![0x26];
    reveal_with_fuel(digits_end, 4);
    reveal_with_fuel(number_value, 4);

    assert(twice.skip(5) =~= number);
    lemma_unescaped_without_ampersand(number);
    assert(unescaped(twice) =~= once);

    assert(once.skip(5) =~= Seq::<u8>::empty());
    assert(unescaped(Seq::<u8>::empty()) =~= Seq::<u8>::empty());
    assert(unescaped(once) =~= ampersand);

    assert(unescaped(unescaped(twice)) != unescaped(twice));
}

} // verus!
