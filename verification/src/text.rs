//! Primitives on UTF-8 text, read byte by byte.
//!
//! Every token of the grammar is ASCII, so the text is modelled by its UTF-8
//! bytes. A parser takes the text that is left and returns what it recognised
//! together with the text that is left after it.

use crate::error::{malformed, Expected, ParseError};
use vstd::prelude::*;
use vstd::string::*;
use vstd::utf8::*;

verus! {

/// `\n`
pub const LINE_FEED: u8 = 0x0a;

/// `\r`
pub const CARRIAGE_RETURN: u8 = 0x0d;

/// ` `
pub const SPACE: u8 = 0x20;

/// `\t`
pub const TAB: u8 = 0x09;

/// The bytes of the text that is left and of the text that was recognised.
pub open spec fn spans(r: Result<(&str, &str), ParseError>) -> Result<
    (Seq<u8>, Seq<u8>),
    ParseError,
> {
    match r {
        Ok((rest, out)) => Ok((rest.spec_bytes(), out.spec_bytes())),
        Err(e) => Err(e),
    }
}

/// A set of bytes that a run is made of.
#[derive(Clone, Copy, Debug, PartialEq, Eq, Structural)]
pub enum ByteClass {
    /// `0` to `9`.
    Digit,
    /// Space and tab.
    Space,
    /// Everything but carriage return and line feed.
    Line,
    /// Space, tab, carriage return and line feed.
    Blank,
}

impl ByteClass {
    /// The byte `b` is of the class.
    pub open spec fn holds(self, b: u8) -> bool {
        match self {
            ByteClass::Digit => 0x30 <= b <= 0x39,
            ByteClass::Space => b == SPACE || b == TAB,
            ByteClass::Line => b != CARRIAGE_RETURN && b != LINE_FEED,
            ByteClass::Blank => b == SPACE || b == TAB || b == CARRIAGE_RETURN || b == LINE_FEED,
        }
    }

    /// Says whether the byte `b` is of the class.
    pub fn contains(&self, b: u8) -> (r: bool)
        ensures
            r == self.holds(b),
    {
        match self {
            ByteClass::Digit => 0x30 <= b && b <= 0x39,
            ByteClass::Space => b == SPACE || b == TAB,
            ByteClass::Line => b != CARRIAGE_RETURN && b != LINE_FEED,
            ByteClass::Blank => b == SPACE || b == TAB || b == CARRIAGE_RETURN || b == LINE_FEED,
        }
    }
}

/// The length of the longest prefix of `s` made of bytes of `class`.
pub open spec fn run_len(s: Seq<u8>, class: ByteClass) -> nat
    decreases s.len(),
{
    if s.len() > 0 && class.holds(s[0]) {
        1 + run_len(s.skip(1), class)
    } else {
        0
    }
}

/// A run ends at the first byte outside the class, or with the text.
pub proof fn lemma_run_len(s: Seq<u8>, class: ByteClass, n: int)
    requires
        0 <= n <= s.len(),
        forall|i: int| 0 <= i < n ==> class.holds(#[trigger] s[i]),
        n < s.len() ==> !class.holds(s[n]),
    ensures
        run_len(s, class) == n,
    decreases n,
{
    if n > 0 {
        let t = s.skip(1);
        lemma_run_len(t, class, n - 1);
    }
}

/// What `run_len` says of each byte.
pub proof fn lemma_run_len_bytes(s: Seq<u8>, class: ByteClass)
    ensures
        run_len(s, class) <= s.len(),
        forall|i: int| 0 <= i < run_len(s, class) ==> class.holds(#[trigger] s[i]),
        run_len(s, class) < s.len() ==> !class.holds(s[run_len(s, class) as int]),
    decreases s.len(),
{
    if s.len() > 0 && class.holds(s[0]) {
        let t = s.skip(1);
        lemma_run_len_bytes(t, class);
        assert forall|i: int| 0 <= i < run_len(s, class) implies class.holds(#[trigger] s[i]) by {
            if i > 0 {
                assert(s[i] == t[i - 1]);
            }
        }
    }
}

/// The lower-case form of an ASCII letter; any other byte is left as it is.
pub open spec fn ascii_lower(b: u8) -> u8 {
    if 0x41 <= b <= 0x5a {
        (b + 0x20) as u8
    } else {
        b
    }
}

/// `s` begins with `literal`, up to the case of ASCII letters.
pub open spec fn begins_ignoring_case(s: Seq<u8>, literal: Seq<u8>) -> bool {
    &&& literal.len() <= s.len()
    &&& forall|i: int|
        0 <= i < literal.len() ==> ascii_lower(#[trigger] s[i]) == ascii_lower(literal[i])
}

/// Whether a text begins with a literal up to the case of ASCII letters
/// does not depend on the case of the ASCII letters of the text.
pub proof fn lemma_case_does_not_matter(s: Seq<u8>, t: Seq<u8>, literal: Seq<u8>)
    requires
        s.len() == t.len(),
        forall|i: int| 0 <= i < s.len() ==> ascii_lower(#[trigger] s[i]) == ascii_lower(t[i]),
    ensures
        begins_ignoring_case(s, literal) == begins_ignoring_case(t, literal),
{
    if begins_ignoring_case(s, literal) {
        assert forall|i: int| 0 <= i < literal.len() implies ascii_lower(#[trigger] t[i])
            == ascii_lower(literal[i]) by {
            assert(ascii_lower(s[i]) == ascii_lower(literal[i]));
        }
    }
}

/// In valid UTF-8, a place next to an ASCII byte is the start of a character.
pub proof fn lemma_boundary_beside_ascii(bytes: Seq<u8>, i: int)
    requires
        valid_utf8(bytes),
        0 <= i <= bytes.len(),
        i == 0 || i == bytes.len() || bytes[i] <= 0x7f || bytes[i - 1] <= 0x7f,
    ensures
        is_char_boundary(bytes, i),
    decreases bytes.len(),
{
    is_char_boundary_start_end_of_seq(bytes);
    if i == 0 || i == bytes.len() {
    } else if bytes[i] <= 0x7f {
        is_char_boundary_iff_not_is_continuation_byte(bytes, i);
    } else {
        reveal_with_fuel(is_char_boundary, 2);
        if i - 1 > 0 {
            is_char_boundary_iff_not_is_continuation_byte(bytes, i - 1);
            let k = length_of_first_scalar(bytes);
            let rest = pop_first_scalar(bytes);
            lemma_boundary_beside_ascii(rest, i - k);
        }
    }
}

/// A literal that is valid UTF-8 ends, where the text begins with it up to
/// the case of ASCII letters, at the start of a character of the text.
pub proof fn lemma_boundary_after_literal(bytes: Seq<u8>, literal: Seq<u8>)
    requires
        valid_utf8(bytes),
        valid_utf8(literal),
        begins_ignoring_case(bytes, literal),
    ensures
        is_char_boundary(bytes, literal.len() as int),
    decreases literal.len(),
{
    if literal.len() > 0 {
        let k = length_of_first_scalar(literal);
        let rest = pop_first_scalar(bytes);
        let tail = pop_first_scalar(literal);
        lemma_boundary_after_literal(rest, tail);
    }
}

/// Splits `input` at byte `n`, where a character starts.
pub fn cut<'a>(input: &'a str, n: usize) -> (r: (&'a str, &'a str))
    requires
        is_char_boundary(input.spec_bytes(), n as int),
    ensures
        r.0.spec_bytes() == input.spec_bytes().take(n as int),
        r.1.spec_bytes() == input.spec_bytes().skip(n as int),
{
    input.split_at(n)
}

/// The longest run of bytes of `class` at the start of `input`, and the text
/// after it. The run may be empty.
pub fn take_run<'a>(input: &'a str, class: ByteClass) -> (r: (&'a str, &'a str))
    ensures
        r.0.spec_bytes() == input.spec_bytes().skip(run_len(input.spec_bytes(), class) as int),
        r.1.spec_bytes() == input.spec_bytes().take(run_len(input.spec_bytes(), class) as int),
{
    let bytes = input.as_bytes();
    let mut n: usize = 0;
    while n < bytes.len() && class.contains(bytes[n])
        invariant
            n <= bytes.len(),
            forall|i: int| 0 <= i < n ==> class.holds(#[trigger] bytes@[i]),
        decreases bytes.len() - n,
    {
        n += 1;
    }
    proof {
        lemma_run_len(bytes@, class, n as int);
        encode_utf8_valid_utf8(input@);
        lemma_boundary_beside_ascii(bytes@, n as int);
    }
    let (run, rest) = cut(input, n);
    (rest, run)
}

/// One space or tab or more.
pub open spec fn spaces_spec(s: Seq<u8>) -> Result<(Seq<u8>, Seq<u8>), ParseError> {
    let n = run_len(s, ByteClass::Space) as int;
    if n > 0 {
        Ok((s.skip(n), s.take(n)))
    } else {
        Err(malformed(s, Expected::Space))
    }
}

/// Recognises one space or tab or more at the start of `input`.
pub fn parse_spaces<'a>(input: &'a str) -> (r: Result<(&'a str, &'a str), ParseError>)
    ensures
        spans(r) == spaces_spec(input.spec_bytes()),
{
    let (rest, run) = take_run(input, ByteClass::Space);
    proof {
        lemma_run_len_bytes(input.spec_bytes(), ByteClass::Space);
    }
    if run.as_bytes().len() == 0 {
        Err(ParseError::Malformed { remaining: input.len(), expected: Expected::Space })
    } else {
        Ok((rest, run))
    }
}

/// `literal` at the start of the text.
pub open spec fn tag_spec(s: Seq<u8>, literal: Seq<u8>) -> Result<(Seq<u8>, Seq<u8>), ParseError> {
    if literal.is_prefix_of(s) {
        Ok((s.skip(literal.len() as int), literal))
    } else {
        Err(malformed(s, Expected::Tag))
    }
}

/// Recognises `literal` at the start of `input`.
pub fn tag<'a>(input: &'a str, literal: &str) -> (r: Result<(&'a str, &'a str), ParseError>)
    ensures
        spans(r) == tag_spec(input.spec_bytes(), literal.spec_bytes()),
{
    let bytes = input.as_bytes();
    let wanted = literal.as_bytes();
    if bytes.len() < wanted.len() {
        return Err(ParseError::Malformed { remaining: input.len(), expected: Expected::Tag });
    }
    let mut i: usize = 0;
    while i < wanted.len()
        invariant
            i <= wanted.len() <= bytes.len(),
            bytes@ == input.spec_bytes(),
            wanted@ == literal.spec_bytes(),
            forall|j: int| 0 <= j < i ==> bytes@[j] == wanted@[j],
        decreases wanted.len() - i,
    {
        if bytes[i] != wanted[i] {
            return Err(ParseError::Malformed { remaining: input.len(), expected: Expected::Tag });
        }
        i += 1;
    }
    proof {
        encode_utf8_valid_utf8(input@);
        encode_utf8_valid_utf8(literal@);
        lemma_boundary_after_literal(bytes@, wanted@);
    }
    let (matched, rest) = cut(input, wanted.len());
    Ok((rest, matched))
}

/// `literal` at the start of the text, whatever the case of ASCII letters.
pub open spec fn tag_no_case_spec(s: Seq<u8>, literal: Seq<u8>) -> Result<
    (Seq<u8>, Seq<u8>),
    ParseError,
> {
    if begins_ignoring_case(s, literal) {
        Ok((s.skip(literal.len() as int), s.take(literal.len() as int)))
    } else {
        Err(malformed(s, Expected::Tag))
    }
}

/// The lower-case form of an ASCII letter; any other byte is left as it is.
pub fn to_ascii_lower(b: u8) -> (r: u8)
    ensures
        r == ascii_lower(b),
{
    if 0x41 <= b && b <= 0x5a {
        b + 0x20
    } else {
        b
    }
}

/// Recognises `literal` at the start of `input`, taking an ASCII letter for
/// the same whether it is written in upper or in lower case.
pub fn tag_no_case<'a>(input: &'a str, literal: &str) -> (r: Result<
    (&'a str, &'a str),
    ParseError,
>)
    ensures
        spans(r) == tag_no_case_spec(input.spec_bytes(), literal.spec_bytes()),
{
    let bytes = input.as_bytes();
    let wanted = literal.as_bytes();
    if bytes.len() < wanted.len() {
        return Err(ParseError::Malformed { remaining: input.len(), expected: Expected::Tag });
    }
    let mut i: usize = 0;
    while i < wanted.len()
        invariant
            i <= wanted.len() <= bytes.len(),
            bytes@ == input.spec_bytes(),
            wanted@ == literal.spec_bytes(),
            forall|j: int| 0 <= j < i ==> ascii_lower(#[trigger] bytes@[j]) == ascii_lower(wanted@[j]),
        decreases wanted.len() - i,
    {
        if to_ascii_lower(bytes[i]) != to_ascii_lower(wanted[i]) {
            return Err(ParseError::Malformed { remaining: input.len(), expected: Expected::Tag });
        }
        i += 1;
    }
    proof {
        encode_utf8_valid_utf8(input@);
        encode_utf8_valid_utf8(literal@);
        lemma_boundary_after_literal(bytes@, wanted@);
    }
    let (matched, rest) = cut(input, wanted.len());
    Ok((rest, matched))
}

} // verus!
