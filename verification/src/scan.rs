//! Scanning a text for the place where a terminator matches.

use crate::error::ParseError;
use crate::line::{newline_spec, parse_newline, plain};
use crate::text::{cut, spans, tag, tag_spec};
use vstd::prelude::*;
use vstd::string::*;
use vstd::utf8::*;

verus! {

/// `tail` is what is left of `s` from the start of one of its characters on.
pub open spec fn is_tail_of(tail: Seq<u8>, s: Seq<u8>) -> bool {
    exists|j: int| 0 <= j < s.len() && is_char_boundary(s, j) && tail == #[trigger] s.skip(j)
}

/// The terminator was called on a text whose bytes are `tail` and failed.
pub open spec fn rejected<'a, P, F: Fn(&'a str) -> Result<(&'a str, P), ParseError>>(
    terminator: F,
    tail: Seq<u8>,
) -> bool {
    exists|t: &'a str, e: ParseError|
        t.spec_bytes() == tail && #[trigger] call_ensures(
            terminator,
            (t,),
            Err::<(&'a str, P), ParseError>(e),
        )
}

/// The terminator was called on a text whose bytes are `tail`, matched, and
/// left `rest`.
pub open spec fn accepted<'a, P, F: Fn(&'a str) -> Result<(&'a str, P), ParseError>>(
    terminator: F,
    tail: Seq<u8>,
    rest: &'a str,
) -> bool {
    exists|t: &'a str, p: P|
        t.spec_bytes() == tail && #[trigger] call_ensures(
            terminator,
            (t,),
            Ok::<(&'a str, P), ParseError>((rest, p)),
        )
}

/// Looks for the first character of `input` at which `terminator` matches.
/// Returns the text after the match and the text before it.
///
/// The terminator is tried at the start of each character in turn, never
/// inside one, and not at the end of the text. Whatever failure it reports
/// means "not here". If it matches nowhere the result is `Incomplete`.
pub fn parse_until<'a, P, F>(input: &'a str, terminator: F) -> (r: Result<
    (&'a str, &'a str),
    ParseError,
>) where F: Fn(&'a str) -> Result<(&'a str, P), ParseError>
    requires
        forall|t: &'a str|
            is_tail_of(t.spec_bytes(), input.spec_bytes()) ==> #[trigger] call_requires(
                terminator,
                (t,),
            ),
    ensures
        match r {
            Ok((rest, body)) => {
                let s = input.spec_bytes();
                let i = body.spec_bytes().len() as int;
                &&& i < s.len()
                &&& is_char_boundary(s, i)
                &&& body.spec_bytes() == s.take(i)
                &&& accepted(terminator, s.skip(i), rest)
                &&& forall|j: int|
                    0 <= j < i && is_char_boundary(s, j) ==> rejected(terminator, #[trigger] s.skip(j))
            },
            Err(e) => {
                let s = input.spec_bytes();
                &&& e == ParseError::Incomplete
                &&& forall|j: int|
                    0 <= j < s.len() && is_char_boundary(s, j) ==> rejected(
                        terminator,
                        #[trigger] s.skip(j),
                    )
            },
        },
{
    let n: usize = input.as_bytes().len();
    let mut i: usize = 0;
    while i < n
        invariant
            i <= n == input.spec_bytes().len(),
            forall|t: &'a str|
                is_tail_of(t.spec_bytes(), input.spec_bytes()) ==> #[trigger] call_requires(
                    terminator,
                    (t,),
                ),
            forall|j: int|
                0 <= j < i && is_char_boundary(input.spec_bytes(), j) ==> rejected(
                    terminator,
                    #[trigger] input.spec_bytes().skip(j),
                ),
        decreases n - i,
    {
        if input.is_char_boundary(i) {
            let (body, tail) = cut(input, i);
            assert(is_tail_of(tail.spec_bytes(), input.spec_bytes()));
            match terminator(tail) {
                Ok((rest, p)) => {
                    assert(call_ensures(
                        terminator,
                        (tail,),
                        Ok::<(&'a str, P), ParseError>((rest, p)),
                    ));
                    return Ok((rest, body));
                },
                Err(e) => {
                    assert(call_ensures(terminator, (tail,), Err::<(&'a str, P), ParseError>(e)));
                },
            }
        }
        i += 1;
    }
    Err(ParseError::Incomplete)
}

/// The line that closes a record: a line ending, ten `=`, a line ending.
pub open spec fn clipping_end_spec(s: Seq<u8>) -> Result<(Seq<u8>, ()), ParseError> {
    match newline_spec(s) {
        Err(e) => Err(e),
        Ok((after, _)) => match tag_spec(after, "==========".spec_bytes()) {
            Err(e) => Err(e),
            Ok((after, _)) => newline_spec(after),
        },
    }
}

/// The first place of `s` at which the closing line matches, if there is one.
pub open spec fn first_clipping_end(s: Seq<u8>) -> Option<int>
    decreases s.len(),
{
    if s.len() == 0 {
        None
    } else if clipping_end_spec(s) is Ok {
        Some(0)
    } else {
        match first_clipping_end(s.skip(1)) {
            Some(i) => Some(i + 1),
            None => None,
        }
    }
}

/// The text up to the first closing line, and what follows that line.
pub open spec fn until_clipping_end_spec(s: Seq<u8>) -> Result<(Seq<u8>, Seq<u8>), ParseError> {
    match first_clipping_end(s) {
        Some(i) => match clipping_end_spec(s.skip(i)) {
            Ok((rest, _)) => Ok((rest, s.take(i))),
            Err(e) => Err(e),
        },
        None => Err(ParseError::Incomplete),
    }
}

/// `first_clipping_end` is the least place at which the closing line matches.
pub proof fn lemma_first_clipping_end(s: Seq<u8>, i: int)
    requires
        0 <= i <= s.len(),
        forall|j: int| 0 <= j < i ==> clipping_end_spec(#[trigger] s.skip(j)) is Err,
        i < s.len() ==> clipping_end_spec(s.skip(i)) is Ok,
    ensures
        first_clipping_end(s) == (if i < s.len() {
            Some(i)
        } else {
            None
        }),
    decreases i,
{
    assert(s.skip(0) =~= s);
    if i > 0 {
        let t = s.skip(1);
        assert forall|j: int| 0 <= j < i - 1 implies clipping_end_spec(#[trigger] t.skip(j))
            is Err by {
            assert(t.skip(j) =~= s.skip(j + 1));
        }
        assert(t.skip(i - 1) =~= s.skip(i));
        lemma_first_clipping_end(t, i - 1);
    }
}

/// Where there is a closing line, `first_clipping_end` is the first place of
/// the text at which it matches; where it is `None`, there is none.
pub proof fn lemma_first_clipping_end_matches(s: Seq<u8>)
    ensures
        match first_clipping_end(s) {
            Some(i) => 0 <= i < s.len() && clipping_end_spec(s.skip(i)) is Ok && forall|j: int|
                0 <= j < i ==> clipping_end_spec(#[trigger] s.skip(j)) is Err,
            None => forall|j: int|
                0 <= j < s.len() ==> clipping_end_spec(#[trigger] s.skip(j)) is Err,
        },
    decreases s.len(),
{
    if s.len() > 0 {
        assert(s.skip(0) =~= s);
        if clipping_end_spec(s) is Err {
            let t = s.skip(1);
            lemma_first_clipping_end_matches(t);
            let end = match first_clipping_end(t) {
                Some(i) => i + 1,
                None => s.len() as int,
            };
            assert forall|j: int| 0 <= j < end implies clipping_end_spec(#[trigger] s.skip(j))
                is Err by {
                if j > 0 {
                    assert(t.skip(j - 1) =~= s.skip(j));
                }
            }
            if let Some(i) = first_clipping_end(t) {
                assert(t.skip(i) =~= s.skip(i + 1));
            }
        }
    }
}

/// Recognises the line that closes a record at the start of `input`.
pub fn clipping_end<'a>(input: &'a str) -> (r: Result<(&'a str, ()), ParseError>)
    ensures
        plain(r) == clipping_end_spec(input.spec_bytes()),
{
    let after = match parse_newline(input) {
        Ok((after, _)) => after,
        Err(e) => {
            return Err(e);
        },
    };
    let after = match tag(after, "==========") {
        Ok((after, _)) => after,
        Err(e) => {
            return Err(e);
        },
    };
    parse_newline(after)
}

/// Takes the text up to the first line that closes a record, and that line.
/// Returns the text before the line.
pub fn parse_until_clipping_end<'a>(input: &'a str) -> (r: Result<
    (&'a str, &'a str),
    ParseError,
>)
    ensures
        spans(r) == until_clipping_end_spec(input.spec_bytes()),
{
    let terminator = |t: &'a str| -> (out: Result<(&'a str, ()), ParseError>)
        ensures
            plain(out) == clipping_end_spec(t.spec_bytes()),
        {
            clipping_end(t)
        };
    let r = parse_until(input, terminator);
    proof {
        let s = input.spec_bytes();
        encode_utf8_valid_utf8(input@);
        let i = match r {
            Ok((_, body)) => body.spec_bytes().len() as int,
            Err(_) => s.len() as int,
        };
        assert forall|j: int| 0 <= j < i implies clipping_end_spec(#[trigger] s.skip(j))
            is Err by {
            if !is_char_boundary(s, j) {
                is_char_boundary_iff_not_is_continuation_byte(s, j);
                assert(s.skip(j)[0] == s[j]);
            }
        }
        lemma_first_clipping_end(s, i);
    }
    r
}

} // verus!
