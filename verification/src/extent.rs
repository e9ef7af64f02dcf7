//! What a parser leaves is the end of what it was given.
//!
//! Every grammar of this library takes bytes from the start of a text and
//! from nowhere else. So the text that is left after a record is the end of
//! the text before it, and the count of bytes that a failure carries says
//! where in the whole text the failure lies.

use crate::error::ParseError;
use crate::header::title_spec;
use crate::line::{
    lemma_newlines_len, newline_len, newline_spec, newlines_len, until_multi_newline_spec,
    until_newline_spec,
};
use crate::location::{keyword_spec, location_spec, number_spec};
use crate::record::{
    bookmark_spec, clipping_spec, content_spec, preamble_spec, text_record_spec,
};
use crate::scan::{
    clipping_end_spec, first_clipping_end, lemma_first_clipping_end_matches,
    until_clipping_end_spec,
};
use crate::text::{
    lemma_run_len_bytes, run_len, spaces_spec, tag_no_case_spec, tag_spec, ByteClass,
};
use vstd::prelude::*;
use vstd::string::*;

verus! {

/// `rest` is the end of `s`.
pub open spec fn is_end_of(rest: Seq<u8>, s: Seq<u8>) -> bool {
    rest.len() <= s.len() && rest == s.skip(s.len() - rest.len())
}

/// The result of a grammar on `s` lies within `s`: what is left is the end
/// of `s`, and a failure lies at one of its bytes or at its end. (Of a text
/// too long for a machine to hold, nothing is said of the failure.)
pub open spec fn stays_within<T>(r: Result<(Seq<u8>, T), ParseError>, s: Seq<u8>) -> bool {
    match r {
        Ok((rest, _)) => is_end_of(rest, s),
        Err(ParseError::Malformed { remaining, .. }) => s.len() <= usize::MAX ==> remaining
            <= s.len(),
        Err(ParseError::Incomplete) => true,
    }
}

/// A text without its first `n` bytes is its end.
pub proof fn lemma_skip_is_end(s: Seq<u8>, n: int)
    requires
        0 <= n <= s.len(),
    ensures
        is_end_of(s.skip(n), s),
        is_end_of(s, s),
{
    assert(s.skip(0) =~= s);
}

/// The end of the end of a text is an end of the text.
pub proof fn lemma_end_of_end(a: Seq<u8>, b: Seq<u8>, c: Seq<u8>)
    requires
        is_end_of(a, b),
        is_end_of(b, c),
    ensures
        is_end_of(a, c),
{
    assert(c.skip(c.len() - b.len()).skip(b.len() - a.len()) =~= c.skip(c.len() - a.len()));
}

/// What lies within the end of a text lies within the text.
pub proof fn lemma_within_end<T>(r: Result<(Seq<u8>, T), ParseError>, a: Seq<u8>, s: Seq<u8>)
    requires
        is_end_of(a, s),
        stays_within(r, a),
    ensures
        stays_within(r, s),
{
    if let Ok((rest, _)) = r {
        lemma_end_of_end(rest, a, s);
    }
}

/// A literal is taken from the start of the text.
pub proof fn lemma_tag_within(s: Seq<u8>, literal: Seq<u8>)
    ensures
        stays_within(tag_spec(s, literal), s),
        stays_within(tag_no_case_spec(s, literal), s),
{
    if literal.len() <= s.len() {
        lemma_skip_is_end(s, literal.len() as int);
    }
}

/// Blanks are taken from the start of the text.
pub proof fn lemma_spaces_within(s: Seq<u8>)
    ensures
        stays_within(spaces_spec(s), s),
{
    lemma_run_len_bytes(s, ByteClass::Space);
    lemma_skip_is_end(s, run_len(s, ByteClass::Space) as int);
}

/// A line ending is taken from the start of the text.
pub proof fn lemma_newline_within(s: Seq<u8>)
    ensures
        stays_within(newline_spec(s), s),
{
    lemma_skip_is_end(s, newline_len(s) as int);
}

/// A line with its ending is taken from the start of the text, and is at
/// least one byte long.
pub proof fn lemma_until_newline_within(s: Seq<u8>)
    ensures
        stays_within(until_newline_spec(s), s),
        stays_within(until_multi_newline_spec(s), s),
        until_newline_spec(s) matches Ok((rest, _)) ==> rest.len() < s.len(),
        until_multi_newline_spec(s) matches Ok((rest, _)) ==> rest.len() < s.len(),
{
    lemma_run_len_bytes(s, ByteClass::Line);
    let n = run_len(s, ByteClass::Line) as int;
    let after = s.skip(n);
    lemma_skip_is_end(s, n);
    lemma_newline_within(after);
    lemma_within_end(newline_spec(after), after, s);
    lemma_newlines_len(after);
    lemma_skip_is_end(after, newlines_len(after) as int);
    lemma_end_of_end(after.skip(newlines_len(after) as int), after, s);
}

/// A closing line is taken from the start of the text, and is at least one
/// byte long.
pub proof fn lemma_clipping_end_within(s: Seq<u8>)
    ensures
        stays_within(clipping_end_spec(s), s),
        clipping_end_spec(s) matches Ok((rest, _)) ==> rest.len() < s.len(),
{
    lemma_newline_within(s);
    if let Ok((a, _)) = newline_spec(s) {
        lemma_tag_within(a, "==========".spec_bytes());
        lemma_within_end(tag_spec(a, "==========".spec_bytes()), a, s);
        if let Ok((b, _)) = tag_spec(a, "==========".spec_bytes()) {
            lemma_newline_within(b);
            lemma_within_end(newline_spec(b), b, s);
        }
    }
}

/// A text with its closing line is taken from the start of the text, and is
/// at least one byte long.
pub proof fn lemma_until_clipping_end_within(s: Seq<u8>)
    ensures
        stays_within(until_clipping_end_spec(s), s),
        until_clipping_end_spec(s) matches Ok((rest, _)) ==> rest.len() < s.len(),
{
    lemma_first_clipping_end_matches(s);
    if let Some(i) = first_clipping_end(s) {
        let t = s.skip(i);
        lemma_skip_is_end(s, i);
        lemma_clipping_end_within(t);
        lemma_within_end(clipping_end_spec(t), t, s);
    }
}

/// A number is taken from the start of the text.
pub proof fn lemma_number_within(s: Seq<u8>)
    ensures
        stays_within(number_spec(s), s),
{
    lemma_run_len_bytes(s, ByteClass::Digit);
    lemma_skip_is_end(s, run_len(s, ByteClass::Digit) as int);
}

/// A place is taken from the start of the text.
pub proof fn lemma_location_within(s: Seq<u8>)
    ensures
        stays_within(location_spec(s), s),
{
    lemma_tag_within(s, "at location".spec_bytes());
    lemma_tag_within(s, "on page".spec_bytes());
    if let Ok((a, _)) = keyword_spec(s) {
        lemma_tag_within(a, " ".spec_bytes());
        lemma_within_end(tag_spec(a, " ".spec_bytes()), a, s);
        if let Ok((b, _)) = tag_spec(a, " ".spec_bytes()) {
            lemma_number_within(b);
            lemma_within_end(number_spec(b), b, s);
            if let Ok((c, _)) = number_spec(b) {
                lemma_tag_within(c, "-".spec_bytes());
                if let Ok((d, _)) = tag_spec(c, "-".spec_bytes()) {
                    lemma_number_within(d);
                    lemma_within_end(number_spec(d), d, c);
                    lemma_within_end(number_spec(d), c, s);
                }
            }
        }
    }
}

/// The start of the second line of a record is taken from the start of the
/// text.
pub proof fn lemma_preamble_within(s: Seq<u8>, type_tag: Seq<u8>)
    ensures
        stays_within(preamble_spec(s, type_tag), s),
{
    lemma_tag_within(s, type_tag);
    if let Ok((a, _)) = tag_spec(s, type_tag) {
        lemma_location_within(a);
        lemma_within_end(location_spec(a), a, s);
        if let Ok((b, _)) = location_spec(a) {
            lemma_spaces_within(b);
            lemma_within_end(spaces_spec(b), b, s);
        }
    }
}

/// A record with a text is taken from the start of the text.
pub proof fn lemma_text_record_within(s: Seq<u8>, type_tag: Seq<u8>)
    ensures
        stays_within(text_record_spec(s, type_tag), s),
{
    lemma_preamble_within(s, type_tag);
    if let Ok((a, _)) = preamble_spec(s, type_tag) {
        lemma_until_newline_within(a);
        lemma_within_end(until_multi_newline_spec(a), a, s);
        if let Ok((b, _)) = until_multi_newline_spec(a) {
            lemma_until_clipping_end_within(b);
            lemma_within_end(until_clipping_end_spec(b), b, s);
        }
    }
}

/// A bookmark is taken from the start of the text.
pub proof fn lemma_bookmark_within(s: Seq<u8>)
    ensures
        stays_within(bookmark_spec(s), s),
{
    let type_tag = "- Your Bookmark ".spec_bytes();
    lemma_preamble_within(s, type_tag);
    if let Ok((a, _)) = preamble_spec(s, type_tag) {
        lemma_until_newline_within(a);
        lemma_within_end(until_newline_spec(a), a, s);
        if let Ok((b, _)) = until_newline_spec(a) {
            lemma_until_clipping_end_within(b);
            lemma_within_end(until_clipping_end_spec(b), b, s);
        }
    }
}

/// The content of a record lies within the text that it was read from.
pub proof fn lemma_content_within(s: Seq<u8>)
    ensures
        stays_within(content_spec(s), s),
{
    lemma_text_record_within(s, "- Your Highlight ".spec_bytes());
    lemma_text_record_within(s, "- Your Note ".spec_bytes());
    lemma_text_record_within(s, "- Clip This Article ".spec_bytes());
    lemma_bookmark_within(s);
}

/// A record lies within the text that it was read from, and is at least one
/// byte long.
pub proof fn lemma_clipping_within(s: Seq<u8>)
    ensures
        stays_within(clipping_spec(s), s),
        clipping_spec(s) matches Ok((rest, _)) ==> rest.len() < s.len(),
{
    lemma_until_newline_within(s);
    if let Ok((a, _)) = title_spec(s) {
        lemma_content_within(a);
        lemma_within_end(content_spec(a), a, s);
    }
}

} // verus!
