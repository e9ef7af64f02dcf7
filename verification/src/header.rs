//! The first line of a record: the title of the book and, in parentheses at
//! the end of the line, its author.

use crate::error::ParseError;
use crate::line::{parse_until_multi_newline, until_multi_newline_spec};
use crate::text::{cut, lemma_boundary_beside_ascii, SPACE};
use vstd::prelude::*;
use vstd::string::*;
use vstd::utf8::*;

verus! {

/// `(`
pub const OPENING_PARENTHESIS: u8 = 0x28;

/// `)`
pub const CLOSING_PARENTHESIS: u8 = 0x29;

/// At `k` the line holds a space and an opening parenthesis: the mark that
/// sets an author off from a title.
pub open spec fn is_author_mark(line: Seq<u8>, k: int) -> bool {
    0 <= k && k + 1 < line.len() && line[k] == SPACE && line[k + 1] == OPENING_PARENTHESIS
}

/// The last mark that begins before `end`.
pub open spec fn last_mark_before(line: Seq<u8>, end: int) -> Option<int>
    decreases end,
{
    if end <= 0 {
        None
    } else if is_author_mark(line, end - 1) {
        Some(end - 1)
    } else {
        last_mark_before(line, end - 1)
    }
}

/// The last mark of the line.
pub open spec fn last_author_mark(line: Seq<u8>) -> Option<int> {
    last_mark_before(line, line.len() as int)
}

/// What stands after the mark, without the parenthesis that closes it.
pub open spec fn strip_closing(right: Seq<u8>) -> Seq<u8> {
    if right.len() > 0 && right.last() == CLOSING_PARENTHESIS {
        right.drop_last()
    } else {
        right
    }
}

/// The title and the author that a line names. The line is split at its last
/// mark, so that a title may hold parentheses of its own; without a mark the
/// whole line is the title.
pub open spec fn split_title(line: Seq<u8>) -> (Seq<u8>, Option<Seq<u8>>) {
    match last_author_mark(line) {
        Some(k) => (line.take(k), Some(strip_closing(line.skip(k + 2)))),
        None => (line, None),
    }
}

/// The first line of a record and the blank lines after it.
pub open spec fn title_spec(s: Seq<u8>) -> Result<
    (Seq<u8>, (Seq<u8>, Option<Seq<u8>>)),
    ParseError,
> {
    match until_multi_newline_spec(s) {
        Ok((rest, line)) => Ok((rest, split_title(line))),
        Err(e) => Err(e),
    }
}

/// The bytes of what a header parser returns.
pub open spec fn title_spans(r: Result<(&str, (&str, Option<&str>)), ParseError>) -> Result<
    (Seq<u8>, (Seq<u8>, Option<Seq<u8>>)),
    ParseError,
> {
    match r {
        Ok((rest, (title, author))) => Ok(
            (
                rest.spec_bytes(),
                (
                    title.spec_bytes(),
                    match author {
                        Some(author) => Some(author.spec_bytes()),
                        None => None,
                    },
                ),
            ),
        ),
        Err(e) => Err(e),
    }
}

/// `last_mark_before` finds a mark, and the one furthest to the right.
pub proof fn lemma_last_mark_before(line: Seq<u8>, end: int)
    ensures
        match last_mark_before(line, end) {
            Some(k) => k < end && is_author_mark(line, k) && forall|j: int|
                k < j < end ==> !is_author_mark(line, j),
            None => forall|j: int| j < end ==> !is_author_mark(line, j),
        },
    decreases end,
{
    if end > 0 && !is_author_mark(line, end - 1) {
        lemma_last_mark_before(line, end - 1);
    }
}

/// A line that holds no mark is a title, whole, without an author. A line
/// that holds one is split at the last: what stands before that mark is the
/// title, however many marks it holds, and what stands after it, without the
/// parenthesis that closes it, is the author.
pub proof fn lemma_split_title(line: Seq<u8>)
    ensures
        (forall|k: int| !is_author_mark(line, k)) ==> split_title(line) == (
            line,
            None::<Seq<u8>>,
        ),
        forall|k: int|
            is_author_mark(line, k) ==> {
                let (title, author) = split_title(line);
                &&& k <= title.len() < line.len()
                &&& is_author_mark(line, title.len() as int)
                &&& title == line.take(title.len() as int)
                &&& author == Some(strip_closing(line.skip(title.len() as int + 2)))
            },
{
    lemma_last_mark_before(line, line.len() as int);
}

/// Splits the text of a header line into title and author.
pub fn split_title_line<'a>(line: &'a str) -> (r: (&'a str, Option<&'a str>))
    ensures
        r.0.spec_bytes() == split_title(line.spec_bytes()).0,
        match r.1 {
            Some(author) => split_title(line.spec_bytes()).1 == Some(author.spec_bytes()),
            None => split_title(line.spec_bytes()).1 is None,
        },
{
    let bytes = line.as_bytes();
    let mut end: usize = bytes.len();
    while end > 0
        invariant
            end <= bytes.len(),
            bytes@ == line.spec_bytes(),
            last_author_mark(bytes@) == last_mark_before(bytes@, end as int),
        decreases end,
    {
        let k: usize = end - 1;
        if k + 1 < bytes.len() && bytes[k] == SPACE && bytes[k + 1] == OPENING_PARENTHESIS {
            proof {
                encode_utf8_valid_utf8(line@);
                lemma_boundary_beside_ascii(bytes@, k as int);
            }
            let (title, tail) = cut(line, k);
            proof {
                encode_utf8_valid_utf8(tail@);
                lemma_boundary_beside_ascii(tail.spec_bytes(), 2);
            }
            let (_, right) = cut(tail, 2);
            let inner = right.as_bytes();
            let n: usize = inner.len();
            if n > 0 && inner[n - 1] == CLOSING_PARENTHESIS {
                proof {
                    encode_utf8_valid_utf8(right@);
                    lemma_boundary_beside_ascii(inner@, n - 1);
                }
                let (author, _) = cut(right, n - 1);
                return (title, Some(author));
            }
            return (title, Some(right));
        }
        end = k;
    }
    (line, None)
}

/// Reads the first line of a record and the blank lines after it, and names
/// the title and the author that the line holds.
///
/// The author is what stands between the last `" ("` of the line and a `)`
/// at its end. A line without `" ("` is a title without an author.
pub fn parse_title<'a>(input: &'a str) -> (r: Result<
    (&'a str, (&'a str, Option<&'a str>)),
    ParseError,
>)
    ensures
        title_spans(r) == title_spec(input.spec_bytes()),
{
    match parse_until_multi_newline(input) {
        Ok((rest, line)) => Ok((rest, split_title_line(line))),
        Err(e) => Err(e),
    }
}

} // verus!
