use charref::entity::{unescape, unescape_html};
use charref::table::{lookup, spelling_matches, ENTITY_COUNT};
use entities::ENTITIES;
use std::borrow::Cow;

#[test]
fn count_is_the_length_of_the_table() {
    assert_eq!(ENTITIES.len(), ENTITY_COUNT);
}

#[test]
fn lookup_finds_the_characters() {
    assert_eq!(lookup(b"amp"), Some(&b"&"[..]));
    assert_eq!(lookup(b"lt"), Some(&b"<"[..]));
    assert_eq!(lookup(b"gt"), Some(&b">"[..]));
    assert_eq!(lookup(b"zwnj"), Some("\u{200c}".as_bytes()));
    assert_eq!(lookup(b"Aacute"), Some("\u{c1}".as_bytes()));
    assert_eq!(lookup(b"CounterClockwiseContourIntegral"), Some("\u{2233}".as_bytes()));
}

#[test]
fn lookup_misses_what_the_table_lacks() {
    assert_eq!(lookup(b"notareal"), None);
    assert_eq!(lookup(b""), None);
    assert_eq!(lookup(b"amp;"), None);
    assert_eq!(lookup(b"&amp"), None);
    assert_eq!(lookup(b"AMp"), None);
    assert_eq!(lookup(b"am"), None);
    assert_eq!(lookup(&[0xff, 0xfe]), None);
}

#[test]
fn lookup_returns_characters_not_the_name() {
    let found = lookup(b"copy").unwrap();
    assert_ne!(found, b"copy");
    assert_ne!(found, b"&copy;");
    assert_eq!(found, "\u{a9}".as_bytes());
}

#[test]
fn spelling_wraps_the_name() {
    assert!(spelling_matches(b"&amp;", b"amp"));
    assert!(spelling_matches(b"&;", b""));
    assert!(!spelling_matches(b"&amp", b"amp"));
    assert!(!spelling_matches(b"amp;", b"amp"));
    assert!(!spelling_matches(b"&amp;", b"am"));
    assert!(!spelling_matches(b"&amp;", b"amp;"));
    assert!(!spelling_matches(b"&amq;", b"amp"));
    assert!(!spelling_matches(b"&bmp;", b"amp"));
    assert!(!spelling_matches(b"#amp;", b"amp"));
    assert!(!spelling_matches(b"&amp:", b"amp"));
    assert!(!spelling_matches(b"", b""));
    assert!(!spelling_matches(b"&", b""));
    assert!(!spelling_matches(b"&Amp;", b"amp"));
}

#[test]
fn every_record_in_reach_decodes_to_its_characters() {
    let mut in_reach: usize = 0;
    for record in ENTITIES.iter() {
        let spelling = record.entity.as_bytes();
        if !spelling.ends_with(b";") {
            continue;
        }
        let name = &spelling[1..spelling.len() - 1];
        assert_eq!(lookup(name), Some(record.characters.as_bytes()));
        let expected: Vec<u8> = if name.len() >= 2 && name.len() <= 30 {
            in_reach += 1;
            record.characters.as_bytes().to_vec()
        } else {
            spelling.to_vec()
        };
        assert_eq!(unescape_html(&Cow::Borrowed(spelling)).into_owned(), expected);
    }
    assert!(in_reach > 2000);
}

#[test]
fn records_without_semicolon_are_not_decoded() {
    for record in ENTITIES.iter() {
        let spelling = record.entity.as_bytes();
        if spelling.ends_with(b";") {
            continue;
        }
        assert_eq!(unescape_html(&Cow::Borrowed(spelling)).into_owned(), spelling.to_vec());
        assert!(unescape(&spelling[1..]).is_none());
    }
}

#[test]
fn no_record_is_spelled_like_a_numeric_reference() {
    for record in ENTITIES.iter() {
        let spelling = record.entity.as_bytes();
        assert_eq!(spelling[0], b'&');
        assert_ne!(spelling[1], b'#');
    }
}
