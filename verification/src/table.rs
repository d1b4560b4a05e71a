//! The table of named entities, and the search for a name in it.
//!
//! The table is the `entities` crate's `ENTITIES` array. Its records are read
//! one at a time through [`entity_at`]; the search itself is verified.

use crate::ascii::{AMPERSAND, SEMICOLON};
use entities::ENTITIES;
use vstd::prelude::*;

verus! {

/// The number of records in the table.
pub const ENTITY_COUNT: usize = 2231;

/// What the table holds at position `i`: first the spelling of a reference,
/// with its leading `&` and, where it has one, its trailing `;`, then the
/// characters that the reference stands for. Both are given as UTF-8 bytes.
pub uninterp spec fn entity_record(i: int) -> (Seq<u8>, Seq<u8>);

/// The spelling of the record at position `i`.
pub open spec fn entity_spelling(i: int) -> Seq<u8> {
    entity_record(i).0
}

/// The characters of the record at position `i`.
pub open spec fn entity_characters(i: int) -> Seq<u8> {
    entity_record(i).1
}

/// Reads `entities::ENTITIES[i]` and hands out the bytes of its fields
/// `entity` and `characters`. Trusted: the contract only gives these bytes
/// the name [`entity_record`], and relies on the array having
/// [`ENTITY_COUNT`] records, as its type `[Entity; 2231]` says.
#[verifier::external_body]
fn entity_at(i: usize) -> (record: (&'static [u8], &'static [u8]))
    requires
        i < ENTITY_COUNT,
    ensures
        record.0@ == entity_record(i as int).0,
        record.1@ == entity_record(i as int).1,
{
    let entity = &ENTITIES[i];
    (entity.entity.as_bytes(), entity.characters.as_bytes())
}

/// The spelling under which the table lists the entity called `name`.
pub open spec fn canonical_spelling(name: Seq<u8>) -> Seq<u8> {
    seq![AMPERSAND] + name + seq![SEMICOLON]
}

/// Position `i` holds the first record of the table that is spelled
/// `&name;`.
pub open spec fn is_first_record_of(name: Seq<u8>, i: int) -> bool {
    &&& 0 <= i < ENTITY_COUNT
    &&& entity_spelling(i) == canonical_spelling(name)
    &&& forall|j: int| 0 <= j < i ==> #[trigger] entity_spelling(j) != canonical_spelling(name)
}

/// The characters of the first record that is spelled `&name;`, if the table
/// has such a record.
pub open spec fn named_entity(name: Seq<u8>) -> Option<Seq<u8>> {
    if exists|i: int| is_first_record_of(name, i) {
        Some(entity_characters(choose|i: int| is_first_record_of(name, i)))
    } else {
        None
    }
}

/// Tells whether `spelling` is `name` between `&` and `;`.
pub fn spelling_matches(spelling: &[u8], name: &[u8]) -> (r: bool)
    ensures
        r == (spelling@ == canonical_spelling(name@)),
{
    let n: usize = name.len();
    if spelling.len() < 2 || spelling.len() - 2 != n {
        return false;
    }
    if spelling[0] != AMPERSAND || spelling[n + 1] != SEMICOLON {
        return false;
    }
    let mut k: usize = 0;
    while k < n
        invariant
            n == name@.len(),
            spelling@.len() == n + 2,
            k <= n,
            forall|j: int| 0 <= j < k ==> spelling@[j + 1] == name@[j],
        decreases n - k,
    {
        if spelling[k + 1] != name[k] {
            return false;
        }
        k += 1;
    }
    assert(spelling@ =~= canonical_spelling(name@));
    true
}

/// Looks `text` up as the name of an entity: the characters of the first
/// record of the table that is spelled `&text;`.
pub fn lookup(text: &[u8]) -> (r: Option<&'static [u8]>)
    ensures
        match r {
            Some(characters) => named_entity(text@) == Some(characters@),
            None => named_entity(text@) is None,
        },
{
    let mut i: usize = 0;
    while i < ENTITY_COUNT
        invariant
            i <= ENTITY_COUNT,
            forall|j: int| 0 <= j < i ==> #[trigger] entity_spelling(j) != canonical_spelling(text@),
        decreases ENTITY_COUNT - i,
    {
        let record = entity_at(i);
        if spelling_matches(record.0, text) {
            assert(is_first_record_of(text@, i as int));
            return Some(record.1);
        }
        i += 1;
    }
    None
}

} // verus!
