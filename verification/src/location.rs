//! Where in a book a clipping was taken: a page or a reading position, alone
//! or as the start of a range.

use crate::error::{malformed, Expected, ParseError};
use crate::line::plain;
use crate::text::{
    lemma_run_len_bytes, run_len, tag, tag_no_case, tag_no_case_spec, tag_spec, take_run,
    ByteClass,
};
use vstd::prelude::*;
use vstd::string::*;

verus! {

/// How a place in a book is addressed.
#[derive(Clone, Copy, Debug, PartialEq, Eq)]
pub enum LocationKind {
    /// By the number of a page.
    Page,
    /// By a reading position, which does not depend on the page layout.
    Location,
}

/// A place in a book. `to` is present only where the text gave a range;
/// nothing asks that `from <= to`.
#[derive(Clone, Copy, Debug, PartialEq, Eq)]
pub struct Location {
    pub from: u32,
    pub to: Option<u32>,
    pub kind: LocationKind,
}

/// The number that a run of decimal digits writes.
pub open spec fn decimal_value(digits: Seq<u8>) -> nat
    decreases digits.len(),
{
    if digits.len() == 0 {
        0
    } else {
        10 * decimal_value(digits.drop_last()) + (digits.last() - 0x30) as nat
    }
}

/// A number does not get smaller as more digits are read.
pub proof fn lemma_decimal_value_prefix(digits: Seq<u8>, k: int)
    requires
        0 <= k <= digits.len(),
        forall|i: int| 0 <= i < digits.len() ==> 0x30 <= #[trigger] digits[i] <= 0x39,
    ensures
        decimal_value(digits.take(k)) <= decimal_value(digits),
    decreases digits.len() - k,
{
    if k == digits.len() {
        assert(digits.take(k) =~= digits);
    } else {
        lemma_decimal_value_prefix(digits.drop_last(), k);
        assert(digits.drop_last().take(k) =~= digits.take(k));
    }
}

/// One decimal digit or more, read as a number of 32 bits.
pub open spec fn number_spec(s: Seq<u8>) -> Result<(Seq<u8>, u32), ParseError> {
    let n = run_len(s, ByteClass::Digit) as int;
    if n == 0 {
        Err(malformed(s, Expected::Digit))
    } else if decimal_value(s.take(n)) > u32::MAX {
        Err(malformed(s, Expected::Number))
    } else {
        Ok((s.skip(n), decimal_value(s.take(n)) as u32))
    }
}

/// The addressing keyword, in any case of its letters.
pub open spec fn keyword_spec(s: Seq<u8>) -> Result<(Seq<u8>, LocationKind), ParseError> {
    match tag_no_case_spec(s, "at location".spec_bytes()) {
        Ok((rest, _)) => Ok((rest, LocationKind::Location)),
        Err(_) => match tag_no_case_spec(s, "on page".spec_bytes()) {
            Ok((rest, _)) => Ok((rest, LocationKind::Page)),
            Err(e) => Err(e),
        },
    }
}

/// The end of a range: a hyphen and a number. Where either is missing, or the
/// number does not fit, there is no range and nothing is taken.
pub open spec fn range_end_spec(s: Seq<u8>) -> Option<(Seq<u8>, u32)> {
    match tag_spec(s, "-".spec_bytes()) {
        Err(_) => None,
        Ok((after, _)) => match number_spec(after) {
            Ok(found) => Some(found),
            Err(_) => None,
        },
    }
}

/// A keyword, one space, a number, and the end of a range if there is one.
pub open spec fn location_spec(s: Seq<u8>) -> Result<(Seq<u8>, Location), ParseError> {
    match keyword_spec(s) {
        Err(e) => Err(e),
        Ok((after, kind)) => match tag_spec(after, " ".spec_bytes()) {
            Err(e) => Err(e),
            Ok((after, _)) => match number_spec(after) {
                Err(e) => Err(e),
                Ok((after, from)) => match range_end_spec(after) {
                    Some((rest, to)) => Ok((rest, Location { from, to: Some(to), kind })),
                    None => Ok((after, Location { from, to: None, kind })),
                },
            },
        },
    }
}

/// Reads a decimal number at the start of `input`. The number ends at the
/// first byte that is no digit.
pub fn parse_number<'a>(input: &'a str) -> (r: Result<(&'a str, u32), ParseError>)
    ensures
        plain(r) == number_spec(input.spec_bytes()),
{
    let (rest, run) = take_run(input, ByteClass::Digit);
    let digits = run.as_bytes();
    proof {
        lemma_run_len_bytes(input.spec_bytes(), ByteClass::Digit);
    }
    if digits.len() == 0 {
        return Err(ParseError::Malformed { remaining: input.len(), expected: Expected::Digit });
    }
    let mut value: u32 = 0;
    let mut i: usize = 0;
    while i < digits.len()
        invariant
            i <= digits.len(),
            value == decimal_value(digits@.take(i as int)),
            forall|j: int| 0 <= j < digits.len() ==> 0x30 <= #[trigger] digits@[j] <= 0x39,
            digits@ == input.spec_bytes().take(run_len(input.spec_bytes(), ByteClass::Digit) as int),
            digits.len() > 0,
        decreases digits.len() - i,
    {
        let digit: u64 = (digits[i] - 0x30) as u64;
        let next: u64 = (value as u64) * 10 + digit;
        proof {
            assert(digits@.take(i + 1).drop_last() =~= digits@.take(i as int));
        }
        if next > u32::MAX as u64 {
            proof {
                lemma_decimal_value_prefix(digits@, i + 1);
            }
            return Err(
                ParseError::Malformed { remaining: input.len(), expected: Expected::Number },
            );
        }
        value = next as u32;
        i += 1;
    }
    proof {
        assert(digits@.take(i as int) =~= digits@);
    }
    Ok((rest, value))
}

/// Recognises the addressing keyword at the start of `input`.
pub fn parse_keyword<'a>(input: &'a str) -> (r: Result<(&'a str, LocationKind), ParseError>)
    ensures
        plain(r) == keyword_spec(input.spec_bytes()),
{
    match tag_no_case(input, "at location") {
        Ok((rest, _)) => Ok((rest, LocationKind::Location)),
        Err(_) => match tag_no_case(input, "on page") {
            Ok((rest, _)) => Ok((rest, LocationKind::Page)),
            Err(e) => Err(e),
        },
    }
}

/// Reads the place that a clipping was taken at: `at location` or `on page`,
/// in any case of the letters, one space, a number, and after a hyphen the
/// number that ends a range. An unknown keyword is `Malformed`.
pub fn parse_location<'a>(input: &'a str) -> (r: Result<(&'a str, Location), ParseError>)
    ensures
        plain(r) == location_spec(input.spec_bytes()),
{
    let (after, kind) = match parse_keyword(input) {
        Ok(found) => found,
        Err(e) => {
            return Err(e);
        },
    };
    let after = match tag(after, " ") {
        Ok((after, _)) => after,
        Err(e) => {
            return Err(e);
        },
    };
    let (after, from) = match parse_number(after) {
        Ok(found) => found,
        Err(e) => {
            return Err(e);
        },
    };
    let range_end = match tag(after, "-") {
        Err(_) => None,
        Ok((rest, _)) => match parse_number(rest) {
            Ok(found) => Some(found),
            Err(_) => None,
        },
    };
    match range_end {
        Some((rest, to)) => Ok((rest, Location { from, to: Some(to), kind })),
        None => Ok((after, Location { from, to: None, kind })),
    }
}

} // verus!
