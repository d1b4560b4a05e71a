//! Decoder for HTML/XML character references.
//!
//! A byte buffer may hold escapes that start with `&`: numeric references
//! (`&#65;`, `&#x41;`) and named references (`&amp;`). [`entity::unescape_html`]
//! replaces every valid escape by the UTF-8 bytes it stands for and leaves the
//! rest of the buffer untouched; [`entity::unescape`] decodes the single
//! reference that follows an ampersand.
//!
//! The named references are those of the `entities` crate's table, which the
//! contracts speak of through [`table::entity_record`].

pub mod ascii;
pub mod utf8;
pub mod table;
pub mod grammar;
pub mod entity;
pub mod lemmas;
