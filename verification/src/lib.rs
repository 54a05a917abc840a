//! A JSON transformer that pretty-prints or minimizes JSON-encoded UTF-8
//! data, one byte at a time and without building a document.
//!
//! The formatter does not validate its input: valid JSON comes out as valid
//! JSON, and anything else is passed through on a best-effort basis.
//!
//! [`model`] says what the formatter computes; [`formatter`] computes it and
//! is proved to do so. The remaining modules state what follows for every
//! input: [`chunking`] that a stream may be cut anywhere, [`reformat`] that
//! formatting changes nothing but whitespace and is idempotent,
//! [`literals`] that string literals pass through untouched, [`indenting`]
//! that indentation follows depth, and [`encoding`] that text stays text.

pub mod bytes;
pub mod model;
pub mod text;
pub mod formatter;
pub mod jsonpp;
pub mod chunking;
pub mod reformat;
pub mod literals;
pub mod indenting;
pub mod encoding;

pub use crate::formatter::{
    minimize, minimize_stream, pretty_print, pretty_print_stream, Formatter, FormatterState,
};
pub use crate::model::Cursor;
