//! The four kinds of record and the grammar of each.
//!
//! After the header line a record has a line that holds its type tag, the
//! place it was taken at, and the date, which is read and dropped. A
//! highlight, a note and an article clip then have blank lines and a text
//! that runs to the closing line. A bookmark has no text.

use crate::book::{Book, BookView};
use crate::clipping::{
    Clipping, ClippingArticleClip, ClippingBookmark, ClippingContent, ClippingHighlight,
    ClippingNote, ClippingView, ContentView,
};
use crate::error::ParseError;
use crate::header::{parse_title, title_spec};
use crate::line::{
    parse_until_multi_newline, parse_until_newline, until_multi_newline_spec, until_newline_spec,
};
use crate::location::{location_spec, parse_location, Location};
use crate::scan::{parse_until_clipping_end, until_clipping_end_spec};
use crate::text::{parse_spaces, spaces_spec, tag, tag_spec};
use vstd::prelude::*;
use vstd::string::*;
use vstd::utf8::*;

verus! {

/// The start of the second line of a record: the type tag, the place, and
/// the blanks after it.
pub open spec fn preamble_spec(s: Seq<u8>, type_tag: Seq<u8>) -> Result<
    (Seq<u8>, Location),
    ParseError,
> {
    match tag_spec(s, type_tag) {
        Err(e) => Err(e),
        Ok((after, _)) => match location_spec(after) {
            Err(e) => Err(e),
            Ok((after, location)) => match spaces_spec(after) {
                Err(e) => Err(e),
                Ok((rest, _)) => Ok((rest, location)),
            },
        },
    }
}

/// A record with a text: the preamble, the rest of its line, blank lines,
/// and the text up to the closing line.
pub open spec fn text_record_spec(s: Seq<u8>, type_tag: Seq<u8>) -> Result<
    (Seq<u8>, (Location, Seq<u8>)),
    ParseError,
> {
    match preamble_spec(s, type_tag) {
        Err(e) => Err(e),
        Ok((after, location)) => match until_multi_newline_spec(after) {
            Err(e) => Err(e),
            Ok((after, _)) => match until_clipping_end_spec(after) {
                Err(e) => Err(e),
                Ok((rest, text)) => Ok((rest, (location, text))),
            },
        },
    }
}

/// A highlight: the record with a text whose type tag is `- Your Highlight `.
pub open spec fn highlight_spec(s: Seq<u8>) -> Result<(Seq<u8>, ContentView), ParseError> {
    match text_record_spec(s, "- Your Highlight ".spec_bytes()) {
        Ok((rest, (location, text))) => Ok(
            (rest, ContentView::Highlight { location, text: decode_utf8(text) }),
        ),
        Err(e) => Err(e),
    }
}

/// A note: the record with a text whose type tag is `- Your Note `.
pub open spec fn note_spec(s: Seq<u8>) -> Result<(Seq<u8>, ContentView), ParseError> {
    match text_record_spec(s, "- Your Note ".spec_bytes()) {
        Ok((rest, (location, text))) => Ok(
            (rest, ContentView::Note { location, text: decode_utf8(text) }),
        ),
        Err(e) => Err(e),
    }
}

/// An article clip: the record with a text whose type tag is
/// `- Clip This Article `.
pub open spec fn article_clip_spec(s: Seq<u8>) -> Result<(Seq<u8>, ContentView), ParseError> {
    match text_record_spec(s, "- Clip This Article ".spec_bytes()) {
        Ok((rest, (location, text))) => Ok(
            (rest, ContentView::ArticleClip { location, text: decode_utf8(text) }),
        ),
        Err(e) => Err(e),
    }
}

/// A bookmark: the preamble, the rest of its line with one line ending, and
/// whatever stands before the closing line, which is dropped.
pub open spec fn bookmark_spec(s: Seq<u8>) -> Result<(Seq<u8>, ContentView), ParseError> {
    match preamble_spec(s, "- Your Bookmark ".spec_bytes()) {
        Err(e) => Err(e),
        Ok((after, location)) => match until_newline_spec(after) {
            Err(e) => Err(e),
            Ok((after, _)) => match until_clipping_end_spec(after) {
                Err(e) => Err(e),
                Ok((rest, _)) => Ok((rest, ContentView::Bookmark { location })),
            },
        },
    }
}

/// The first of two grammars, unless it fails as `Malformed`: then the second.
pub open spec fn or_else<T>(first: Result<T, ParseError>, second: Result<T, ParseError>) -> Result<
    T,
    ParseError,
> {
    match first {
        Err(ParseError::Malformed { .. }) => second,
        _ => first,
    }
}

/// The content of a record: the four grammars in their order. Where all four
/// fail as `Malformed`, the failure of the last is reported.
pub open spec fn content_spec(s: Seq<u8>) -> Result<(Seq<u8>, ContentView), ParseError> {
    or_else(
        highlight_spec(s),
        or_else(note_spec(s), or_else(bookmark_spec(s), article_clip_spec(s))),
    )
}

/// The four type tags differ from one another before any of them ends, so
/// that no text begins with two of them.
pub proof fn lemma_type_tags_differ(s: Seq<u8>)
    ensures
        tag_spec(s, "- Your Highlight ".spec_bytes()) is Ok ==> {
            &&& tag_spec(s, "- Your Note ".spec_bytes()) is Err
            &&& tag_spec(s, "- Your Bookmark ".spec_bytes()) is Err
            &&& tag_spec(s, "- Clip This Article ".spec_bytes()) is Err
        },
        tag_spec(s, "- Your Note ".spec_bytes()) is Ok ==> {
            &&& tag_spec(s, "- Your Bookmark ".spec_bytes()) is Err
            &&& tag_spec(s, "- Clip This Article ".spec_bytes()) is Err
        },
        tag_spec(s, "- Your Bookmark ".spec_bytes()) is Ok ==> tag_spec(
            s,
            "- Clip This Article ".spec_bytes(),
        ) is Err,
{
    reveal_strlit("- Your Highlight ");
    reveal_strlit("- Your Note ");
    reveal_strlit("- Your Bookmark ");
    reveal_strlit("- Clip This Article ");
    is_ascii_chars_encode_utf8("- Your Highlight "@);
    is_ascii_chars_encode_utf8("- Your Note "@);
    is_ascii_chars_encode_utf8("- Your Bookmark "@);
    is_ascii_chars_encode_utf8("- Clip This Article "@);
    let highlight = "- Your Highlight ".spec_bytes();
    let note = "- Your Note ".spec_bytes();
    let bookmark = "- Your Bookmark ".spec_bytes();
    let article_clip = "- Clip This Article ".spec_bytes();
    assert(highlight[7] == 0x48 && note[7] == 0x4e && bookmark[7] == 0x42);
    assert(highlight[2] == 0x59 && note[2] == 0x59 && bookmark[2] == 0x59 && article_clip[2]
        == 0x43);
    if highlight.is_prefix_of(s) {
        assert(s.subrange(0, highlight.len() as int)[7] == highlight[7]);
        assert(s.subrange(0, highlight.len() as int)[2] == highlight[2]);
    }
    if note.is_prefix_of(s) {
        assert(s.subrange(0, note.len() as int)[7] == note[7]);
        assert(s.subrange(0, note.len() as int)[2] == note[2]);
    }
    if bookmark.is_prefix_of(s) {
        assert(s.subrange(0, bookmark.len() as int)[7] == bookmark[7]);
        assert(s.subrange(0, bookmark.len() as int)[2] == bookmark[2]);
    }
    if article_clip.is_prefix_of(s) {
        assert(s.subrange(0, article_clip.len() as int)[2] == article_clip[2]);
    }
}

/// At most one of the four grammars reads a text, so that the order in which
/// they are tried decides no result: the content of a record is that of the
/// one grammar that reads it.
pub proof fn lemma_kinds_exclude_one_another(s: Seq<u8>)
    ensures
        highlight_spec(s) is Ok ==> note_spec(s) is Err && bookmark_spec(s) is Err
            && article_clip_spec(s) is Err,
        note_spec(s) is Ok ==> highlight_spec(s) is Err && bookmark_spec(s) is Err
            && article_clip_spec(s) is Err,
        bookmark_spec(s) is Ok ==> highlight_spec(s) is Err && note_spec(s) is Err
            && article_clip_spec(s) is Err,
        article_clip_spec(s) is Ok ==> highlight_spec(s) is Err && note_spec(s) is Err
            && bookmark_spec(s) is Err,
        highlight_spec(s) is Ok ==> content_spec(s) == highlight_spec(s),
        note_spec(s) is Ok ==> content_spec(s) == note_spec(s),
        bookmark_spec(s) is Ok ==> content_spec(s) == bookmark_spec(s),
        article_clip_spec(s) is Ok ==> content_spec(s) == article_clip_spec(s),
{
    lemma_type_tags_differ(s);
}

/// The title and the author of a header as a book.
pub open spec fn book_of(header: (Seq<u8>, Option<Seq<u8>>)) -> BookView {
    BookView {
        title: decode_utf8(header.0),
        author: match header.1 {
            Some(author) => Some(decode_utf8(author)),
            None => None,
        },
    }
}

/// One record: its header, then its content.
pub open spec fn clipping_spec(s: Seq<u8>) -> Result<(Seq<u8>, ClippingView), ParseError> {
    match title_spec(s) {
        Err(e) => Err(e),
        Ok((after, header)) => match content_spec(after) {
            Err(e) => Err(e),
            Ok((rest, content)) => Ok((rest, ClippingView { book: book_of(header), content })),
        },
    }
}

/// The bytes of the text that is left, beside the view of what was parsed.
pub open spec fn parsed<T: View>(r: Result<(&str, T), ParseError>) -> Result<
    (Seq<u8>, T::V),
    ParseError,
> {
    match r {
        Ok((rest, out)) => Ok((rest.spec_bytes(), out@)),
        Err(e) => Err(e),
    }
}

/// Recognises the type tag, the place and the blanks after it.
pub fn parse_preamble<'a>(input: &'a str, type_tag: &str) -> (r: Result<
    (&'a str, Location),
    ParseError,
>)
    ensures
        crate::line::plain(r) == preamble_spec(input.spec_bytes(), type_tag.spec_bytes()),
{
    let after = match tag(input, type_tag) {
        Ok((after, _)) => after,
        Err(e) => {
            return Err(e);
        },
    };
    let (after, location) = match parse_location(after) {
        Ok(found) => found,
        Err(e) => {
            return Err(e);
        },
    };
    match parse_spaces(after) {
        Ok((rest, _)) => Ok((rest, location)),
        Err(e) => Err(e),
    }
}

/// Reads a record that has a text, after its header.
pub fn parse_text_record<'a>(input: &'a str, type_tag: &str) -> (r: Result<
    (&'a str, (Location, String)),
    ParseError,
>)
    ensures
        match r {
            Ok((rest, (location, text))) => text_record_spec(
                input.spec_bytes(),
                type_tag.spec_bytes(),
            ) matches Ok((s_rest, (s_location, s_text))) && rest.spec_bytes() == s_rest && location
                == s_location && text@ == decode_utf8(s_text),
            Err(e) => text_record_spec(input.spec_bytes(), type_tag.spec_bytes()) == Err::<
                (Seq<u8>, (Location, Seq<u8>)),
                ParseError,
            >(e),
        },
{
    let (after, location) = match parse_preamble(input, type_tag) {
        Ok(found) => found,
        Err(e) => {
            return Err(e);
        },
    };
    let after = match parse_until_multi_newline(after) {
        Ok((after, _)) => after,
        Err(e) => {
            return Err(e);
        },
    };
    match parse_until_clipping_end(after) {
        Ok((rest, text)) => {
            proof {
                encode_utf8_decode_utf8(text@);
            }
            Ok((rest, (location, text.to_owned())))
        },
        Err(e) => Err(e),
    }
}

/// Reads a highlight, after its header.
pub fn parse_clipping_highlight<'a>(input: &'a str) -> (r: Result<
    (&'a str, ClippingContent),
    ParseError,
>)
    ensures
        parsed(r) == highlight_spec(input.spec_bytes()),
{
    match parse_text_record(input, "- Your Highlight ") {
        Ok((rest, (location, text))) => Ok(
            (rest, ClippingContent::Highlight(ClippingHighlight { location, text })),
        ),
        Err(e) => Err(e),
    }
}

/// Reads a note, after its header.
pub fn parse_clipping_note<'a>(input: &'a str) -> (r: Result<
    (&'a str, ClippingContent),
    ParseError,
>)
    ensures
        parsed(r) == note_spec(input.spec_bytes()),
{
    match parse_text_record(input, "- Your Note ") {
        Ok((rest, (location, text))) => Ok(
            (rest, ClippingContent::Note(ClippingNote { location, text })),
        ),
        Err(e) => Err(e),
    }
}

/// Reads an article clip, after its header.
pub fn parse_clipping_article_clip<'a>(input: &'a str) -> (r: Result<
    (&'a str, ClippingContent),
    ParseError,
>)
    ensures
        parsed(r) == article_clip_spec(input.spec_bytes()),
{
    match parse_text_record(input, "- Clip This Article ") {
        Ok((rest, (location, text))) => Ok(
            (rest, ClippingContent::ArticleClip(ClippingArticleClip { location, text })),
        ),
        Err(e) => Err(e),
    }
}

/// Reads a bookmark, after its header.
pub fn parse_clipping_bookmark<'a>(input: &'a str) -> (r: Result<
    (&'a str, ClippingContent),
    ParseError,
>)
    ensures
        parsed(r) == bookmark_spec(input.spec_bytes()),
{
    let (after, location) = match parse_preamble(input, "- Your Bookmark ") {
        Ok(found) => found,
        Err(e) => {
            return Err(e);
        },
    };
    let after = match parse_until_newline(after) {
        Ok((after, _)) => after,
        Err(e) => {
            return Err(e);
        },
    };
    match parse_until_clipping_end(after) {
        Ok((rest, _)) => Ok((rest, ClippingContent::Bookmark(ClippingBookmark { location }))),
        Err(e) => Err(e),
    }
}

/// Reads the content of a record, after its header: a highlight, a note, a
/// bookmark or an article clip, tried in this order.
pub fn parse_content<'a>(input: &'a str) -> (r: Result<(&'a str, ClippingContent), ParseError>)
    ensures
        parsed(r) == content_spec(input.spec_bytes()),
{
    match parse_clipping_highlight(input) {
        Err(ParseError::Malformed { .. }) => {},
        r => {
            return r;
        },
    }
    match parse_clipping_note(input) {
        Err(ParseError::Malformed { .. }) => {},
        r => {
            return r;
        },
    }
    match parse_clipping_bookmark(input) {
        Err(ParseError::Malformed { .. }) => {},
        r => {
            return r;
        },
    }
    parse_clipping_article_clip(input)
}

/// Reads one record: the header line with the book, then the content.
pub fn parse_clipping<'a>(input: &'a str) -> (r: Result<(&'a str, Clipping), ParseError>)
    ensures
        parsed(r) == clipping_spec(input.spec_bytes()),
{
    let (after, (title, author)) = match parse_title(input) {
        Ok(found) => found,
        Err(e) => {
            return Err(e);
        },
    };
    let (rest, content) = match parse_content(after) {
        Ok(found) => found,
        Err(e) => {
            return Err(e);
        },
    };
    proof {
        encode_utf8_decode_utf8(title@);
        if let Some(author) = author {
            encode_utf8_decode_utf8(author@);
        }
    }
    let book = Book {
        title: title.to_owned(),
        author: match author {
            Some(author) => Some(author.to_owned()),
            None => None,
        },
    };
    Ok((rest, Clipping { book, content }))
}

} // verus!
