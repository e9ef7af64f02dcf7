//! Parsing of an e-reader's "clippings" export into a document grouped by book.
//!
//! The export is a text of records. Each record names a book, says what was
//! clipped (a highlight, a note, a bookmark or a clip of an article) and
//! where, and ends with a line of ten `=`. [`parse`] reads a whole text into
//! a [`ClippingsMap`]; [`sort_clippings_list`] puts its groups in order for
//! presentation.
//!
//! The text is read as UTF-8 bytes. Every parser takes the text that is left
//! and returns the text that is left after it beside what it found, and its
//! contract says what both are for every text.

pub mod book;
pub mod clipping;
pub mod document;
pub mod error;
pub mod extent;
pub mod header;
pub mod line;
pub mod location;
pub mod order;
pub mod parser;
pub mod record;
pub mod scan;
pub mod text;

pub use book::Book;
pub use clipping::{
    Clipping, ClippingArticleClip, ClippingBookmark, ClippingContent, ClippingHighlight,
    ClippingNote,
};
pub use document::{BookClippings, ClippingsList, ClippingsMap};
pub use error::{Expected, ParseError};
pub use header::parse_title;
pub use line::{parse_newline, parse_until_multi_newline, parse_until_newline};
pub use location::{parse_location, Location, LocationKind};
pub use order::sort_clippings_list;
pub use parser::parse;
pub use record::{
    parse_clipping, parse_clipping_article_clip, parse_clipping_bookmark,
    parse_clipping_highlight, parse_clipping_note,
};
pub use scan::{parse_until, parse_until_clipping_end};
pub use text::tag;
