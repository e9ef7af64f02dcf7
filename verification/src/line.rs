//! Line endings, and text up to the end of a line.
//!
//! A line ends with `"\r\n"` or with `"\n"`. Each line ending is recognised
//! where it is read, so one text may use both.

use crate::error::{malformed, Expected, ParseError};
use crate::text::{
    cut, lemma_boundary_beside_ascii, run_len, spans, take_run, ByteClass, CARRIAGE_RETURN,
    LINE_FEED,
};
use vstd::prelude::*;
use vstd::string::*;
use vstd::utf8::*;

verus! {

/// The bytes of the text that is left, beside a value that holds no text.
pub open spec fn plain<T>(r: Result<(&str, T), ParseError>) -> Result<(Seq<u8>, T), ParseError> {
    match r {
        Ok((rest, out)) => Ok((rest.spec_bytes(), out)),
        Err(e) => Err(e),
    }
}

/// The length of the line ending at the start of `s`: 2, 1, or 0 where there
/// is none.
pub open spec fn newline_len(s: Seq<u8>) -> nat {
    if s.len() >= 2 && s[0] == CARRIAGE_RETURN && s[1] == LINE_FEED {
        2
    } else if s.len() >= 1 && s[0] == LINE_FEED {
        1
    } else {
        0
    }
}

/// The length of all the line endings that follow one another at the start
/// of `s`.
pub open spec fn newlines_len(s: Seq<u8>) -> nat
    decreases s.len(),
{
    let n = newline_len(s);
    if n == 0 {
        0
    } else {
        n + newlines_len(s.skip(n as int))
    }
}

/// Line endings that follow one another are part of the text, and no line
/// ending follows the last of them.
pub proof fn lemma_newlines_len(s: Seq<u8>)
    ensures
        newlines_len(s) <= s.len(),
        newline_len(s.skip(newlines_len(s) as int)) == 0,
    decreases s.len(),
{
    let n = newline_len(s) as int;
    if n > 0 {
        let t = s.skip(n);
        lemma_newlines_len(t);
        assert(t.skip(newlines_len(t) as int) =~= s.skip(newlines_len(s) as int));
    } else {
        assert(s.skip(0) =~= s);
    }
}

/// One line ending.
pub open spec fn newline_spec(s: Seq<u8>) -> Result<(Seq<u8>, ()), ParseError> {
    if newline_len(s) > 0 {
        Ok((s.skip(newline_len(s) as int), ()))
    } else {
        Err(malformed(s, Expected::Newline))
    }
}

/// The rest of the line, then one line ending.
pub open spec fn until_newline_spec(s: Seq<u8>) -> Result<(Seq<u8>, Seq<u8>), ParseError> {
    let n = run_len(s, ByteClass::Line) as int;
    match newline_spec(s.skip(n)) {
        Ok((rest, _)) => Ok((rest, s.take(n))),
        Err(e) => Err(e),
    }
}

/// The rest of the line, then one line ending or more.
pub open spec fn until_multi_newline_spec(s: Seq<u8>) -> Result<(Seq<u8>, Seq<u8>), ParseError> {
    let n = run_len(s, ByteClass::Line) as int;
    let after = s.skip(n);
    if newlines_len(after) > 0 {
        Ok((after.skip(newlines_len(after) as int), s.take(n)))
    } else {
        Err(malformed(after, Expected::Newline))
    }
}

/// Recognises one line ending at the start of `input`.
pub fn parse_newline<'a>(input: &'a str) -> (r: Result<(&'a str, ()), ParseError>)
    ensures
        plain(r) == newline_spec(input.spec_bytes()),
{
    let bytes = input.as_bytes();
    let n: usize = if bytes.len() >= 2 && bytes[0] == CARRIAGE_RETURN && bytes[1] == LINE_FEED {
        2
    } else if bytes.len() >= 1 && bytes[0] == LINE_FEED {
        1
    } else {
        0
    };
    if n == 0 {
        return Err(ParseError::Malformed { remaining: input.len(), expected: Expected::Newline });
    }
    proof {
        encode_utf8_valid_utf8(input@);
        lemma_boundary_beside_ascii(bytes@, n as int);
    }
    let (_, rest) = cut(input, n);
    Ok((rest, ()))
}

/// Takes the text up to the end of the line and the line ending after it.
/// Returns the text of the line without its ending.
pub fn parse_until_newline<'a>(input: &'a str) -> (r: Result<(&'a str, &'a str), ParseError>)
    ensures
        spans(r) == until_newline_spec(input.spec_bytes()),
{
    let (rest, line) = take_run(input, ByteClass::Line);
    match parse_newline(rest) {
        Ok((rest, _)) => Ok((rest, line)),
        Err(e) => Err(e),
    }
}

/// Takes the text up to the end of the line and all the line endings that
/// follow it, of which there must be one at least. Returns the text of the
/// line without its ending.
pub fn parse_until_multi_newline<'a>(input: &'a str) -> (r: Result<
    (&'a str, &'a str),
    ParseError,
>)
    ensures
        spans(r) == until_multi_newline_spec(input.spec_bytes()),
{
    let (after, line) = take_run(input, ByteClass::Line);
    let mut rest: &'a str = match parse_newline(after) {
        Ok((rest, _)) => rest,
        Err(e) => {
            return Err(e);
        },
    };
    let ghost mut taken: int = newline_len(after.spec_bytes()) as int;
    loop
        invariant
            0 < taken <= after.spec_bytes().len(),
            rest.spec_bytes() == after.spec_bytes().skip(taken),
            newlines_len(after.spec_bytes()) == taken + newlines_len(rest.spec_bytes()),
        ensures
            0 < taken <= after.spec_bytes().len(),
            rest.spec_bytes() == after.spec_bytes().skip(taken),
            newlines_len(after.spec_bytes()) == taken,
        decreases rest.spec_bytes().len(),
    {
        match parse_newline(rest) {
            Ok((next, _)) => {
                proof {
                    let n = newline_len(rest.spec_bytes()) as int;
                    assert(after.spec_bytes().skip(taken).skip(n) =~= after.spec_bytes().skip(
                        taken + n,
                    ));
                    taken = taken + n;
                }
                rest = next;
            },
            Err(_) => {
                break ;
            },
        }
    }
    Ok((rest, line))
}

} // verus!
