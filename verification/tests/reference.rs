use charref::entity::{unescape, ENTITY_MAX_LENGTH, ENTITY_MIN_LENGTH};
use std::borrow::Cow;

fn decoded(text: &[u8]) -> Option<(Vec<u8>, usize)> {
    unescape(text).map(|(bytes, consumed)| (bytes.into_owned(), consumed))
}

#[test]
fn limits_of_a_name() {
    assert_eq!(ENTITY_MIN_LENGTH, 2);
    assert_eq!(ENTITY_MAX_LENGTH, 31);
}

#[test]
fn numeric_reference_is_owned() {
    match unescape(b"#65;") {
        Some((Cow::Owned(bytes), consumed)) => {
            assert_eq!(bytes, b"A".to_vec());
            assert_eq!(consumed, 4);
        }
        _ => panic!("no owned result"),
    }
}

#[test]
fn named_reference_is_borrowed() {
    match unescape(b"amp;") {
        Some((Cow::Borrowed(bytes), consumed)) => {
            assert_eq!(bytes, b"&");
            assert_eq!(consumed, 4);
        }
        _ => panic!("no borrowed result"),
    }
}

#[test]
fn consumed_counts_prefix_digits_and_semicolon() {
    assert_eq!(decoded(b"#6;"), Some((vec![6], 3)));
    assert_eq!(decoded(b"#65;"), Some((b"A".to_vec(), 4)));
    assert_eq!(decoded(b"#x41;"), Some((b"A".to_vec(), 5)));
    assert_eq!(decoded(b"#X00000041;"), Some((b"A".to_vec(), 11)));
    assert_eq!(decoded(b"#00000065;"), Some((b"A".to_vec(), 10)));
    assert_eq!(decoded(b"gt;"), Some((b">".to_vec(), 3)));
    assert_eq!(decoded(b"ClockwiseContourIntegral;"), Some(("\u{2232}".as_bytes().to_vec(), 25)));
}

#[test]
fn text_behind_the_reference_is_left() {
    assert_eq!(decoded(b"#65;#66;"), Some((b"A".to_vec(), 4)));
    assert_eq!(decoded(b"lt;gt;"), Some((b"<".to_vec(), 3)));
    assert_eq!(decoded(b"amp; and so on, for more than thirty-one bytes"), Some((b"&".to_vec(), 4)));
}

#[test]
fn short_text_holds_no_reference() {
    assert_eq!(decoded(b""), None);
    assert_eq!(decoded(b"#"), None);
    assert_eq!(decoded(b"#6"), None);
    assert_eq!(decoded(b"g"), None);
    assert_eq!(decoded(b"gt"), None);
    assert_eq!(decoded(b";"), None);
}

#[test]
fn numeric_text_is_never_looked_up() {
    assert_eq!(decoded(b"#amp;"), None);
    assert_eq!(decoded(b"#xamp;"), None);
    assert_eq!(decoded(b"#123456789;"), None);
    assert_eq!(decoded(b"#12 ;"), None);
}

#[test]
fn decimal_digits_stop_at_a_letter() {
    assert_eq!(decoded(b"#6a;"), None);
    assert_eq!(decoded(b"#x6g;"), None);
}

#[test]
fn name_scan_starts_at_the_third_byte() {
    assert_eq!(decoded(b"a;"), None);
    assert_eq!(decoded(b";;gt;"), None);
    assert_eq!(decoded(b"g;t;"), None);
}

#[test]
fn space_before_the_semicolon_fails() {
    assert_eq!(decoded(b"am p;"), None);
    assert_eq!(decoded(b"amp ;"), None);
}

#[test]
fn name_of_thirty_one_bytes_is_out_of_reach() {
    assert_eq!(decoded(b"CounterClockwiseContourIntegral;"), None);
}

#[test]
fn replacement_character_for_invalid_code_points() {
    assert_eq!(decoded(b"#0;rest"), Some((vec![0xef, 0xbf, 0xbd], 3)));
    assert_eq!(decoded(b"#xD800;"), Some((vec![0xef, 0xbf, 0xbd], 7)));
    assert_eq!(decoded(b"#xE000;"), Some((vec![0xef, 0xbf, 0xbd], 7)));
    assert_eq!(decoded(b"#x110000;"), Some((vec![0xef, 0xbf, 0xbd], 9)));
    assert_eq!(decoded(b"#xD7FF;"), Some((vec![0xed, 0x9f, 0xbf], 7)));
    assert_eq!(decoded(b"#xE001;"), Some((vec![0xee, 0x80, 0x81], 7)));
}
