//! Parsing a whole text: record after record, to the end.

use crate::book::BookView;
use crate::clipping::{ClippingView, ContentView};
use crate::document::{as_map, collect, distinct_books, ClippingsMap, GroupView};
use crate::error::ParseError;
use crate::extent::{lemma_clipping_within, lemma_skip_is_end, lemma_within_end, stays_within};
use crate::record::{clipping_spec, parse_clipping};
use crate::text::{lemma_run_len_bytes, run_len, take_run, ByteClass};
use vstd::prelude::*;
use vstd::string::*;

verus! {

/// The text holds nothing but spaces, tabs and line endings.
pub open spec fn is_blank(s: Seq<u8>) -> bool {
    run_len(s, ByteClass::Blank) == s.len()
}

/// The records of a text. Parsing ends where nothing but blanks is left, and
/// that is the text left over. Anything else must be a record: the first
/// record that fails is the failure of the whole.
pub open spec fn records_spec(s: Seq<u8>) -> Result<(Seq<u8>, Seq<ClippingView>), ParseError>
    decreases s.len(),
    via records_spec_decreases
{
    if is_blank(s) {
        Ok((s, Seq::empty()))
    } else {
        match clipping_spec(s) {
            Err(e) => Err(e),
            Ok((after, first)) => match records_spec(after) {
                Err(e) => Err(e),
                Ok((rest, others)) => Ok((rest, seq![first] + others)),
            },
        }
    }
}

#[via_fn]
proof fn records_spec_decreases(s: Seq<u8>) {
    lemma_clipping_within(s);
}

/// The records of a text lie within it: the blanks left over are its end,
/// and a failure lies at one of its bytes or at its end.
pub proof fn lemma_records_within(s: Seq<u8>)
    ensures
        stays_within(records_spec(s), s),
    decreases s.len(),
{
    lemma_skip_is_end(s, 0);
    if !is_blank(s) {
        lemma_clipping_within(s);
        if let Ok((after, _)) = clipping_spec(s) {
            lemma_records_within(after);
            lemma_within_end(records_spec(after), after, s);
        }
    }
}

/// `r` is what parsing the text `s` gives: the document of its records in
/// their order beside the blanks after the last of them, or the failure of
/// the first record that cannot be read.
pub open spec fn is_parse_of(r: Result<(&str, ClippingsMap), ParseError>, s: Seq<u8>) -> bool {
    match r {
        Ok((rest, document)) => records_spec(s) matches Ok((s_rest, records)) && rest.spec_bytes()
            == s_rest && document.groups() == collect(records),
        Err(e) => records_spec(s) == Err::<(Seq<u8>, Seq<ClippingView>), ParseError>(e),
    }
}

/// Parsing is a function of the text. Two results for one text fail
/// together, with the same failure, or succeed together, with the same
/// groups of the same clippings and the same text left over.
pub proof fn lemma_parse_is_deterministic(
    s: Seq<u8>,
    first: Result<(&str, ClippingsMap), ParseError>,
    second: Result<(&str, ClippingsMap), ParseError>,
)
    requires
        is_parse_of(first, s),
        is_parse_of(second, s),
    ensures
        match (first, second) {
            (Ok((rest1, document1)), Ok((rest2, document2))) => rest1.spec_bytes()
                == rest2.spec_bytes() && document1.groups() == document2.groups() && document1@
                == document2@,
            (Err(e1), Err(e2)) => e1 == e2,
            _ => false,
        },
{
}

/// A text of blanks alone, the empty text among them, has no records:
/// parsing it does not fail, gives a document without groups, and leaves the
/// text over whole.
pub proof fn lemma_blank_text_is_empty_document(
    s: Seq<u8>,
    r: Result<(&str, ClippingsMap), ParseError>,
)
    requires
        is_blank(s),
        is_parse_of(r, s),
    ensures
        records_spec(s) == Ok::<(Seq<u8>, Seq<ClippingView>), ParseError>((s, Seq::empty())),
        r matches Ok((rest, document)) && rest.spec_bytes() == s && document.groups()
            == Seq::<GroupView>::empty() && document@ == Map::<BookView, Seq<ContentView>>::empty(),
{
    assert(as_map(Seq::<GroupView>::empty()) =~= Map::<BookView, Seq<ContentView>>::empty());
}

/// Says whether `input` holds nothing but spaces, tabs and line endings.
pub fn is_blank_text(input: &str) -> (r: bool)
    ensures
        r == is_blank(input.spec_bytes()),
{
    proof {
        lemma_run_len_bytes(input.spec_bytes(), ByteClass::Blank);
    }
    let (rest, _) = take_run(input, ByteClass::Blank);
    rest.as_bytes().len() == 0
}

/// Parses a text into the document of its clippings.
///
/// Records are read one after the other and each is added to the group of
/// its book. Reading ends where only blanks are left: they are returned
/// beside the document. A text of blanks alone gives an empty document. A
/// record that cannot be read fails the whole text, and the clippings read
/// before it are not returned.
pub fn parse<'a>(input: &'a str) -> (r: Result<(&'a str, ClippingsMap), ParseError>)
    ensures
        is_parse_of(r, input.spec_bytes()),
        r matches Ok((_, document)) ==> distinct_books(document.groups()),
        r matches Err(e) ==> e is Incomplete || e.spec_offset(input.len()) is Some,
{
    let mut document = ClippingsMap::new();
    if input.as_bytes().len() == 0 {
        return Ok((input, document));
    }
    proof {
        lemma_records_within(input.spec_bytes());
    }
    let mut rest: &'a str = input;
    let ghost mut done: Seq<ClippingView> = Seq::empty();
    loop
        invariant
            document.groups() == collect(done),
            distinct_books(document.groups()),
            records_spec(input.spec_bytes()) matches Err(e) ==> e is Incomplete || e.spec_offset(
                input.len(),
            ) is Some,
            match records_spec(rest.spec_bytes()) {
                Ok((end, records)) => records_spec(input.spec_bytes()) == Ok::<
                    (Seq<u8>, Seq<ClippingView>),
                    ParseError,
                >((end, done + records)),
                Err(e) => records_spec(input.spec_bytes()) == Err::<
                    (Seq<u8>, Seq<ClippingView>),
                    ParseError,
                >(e),
            },
        decreases rest.spec_bytes().len(),
    {
        if is_blank_text(rest) {
            return Ok((rest, document));
        }
        match parse_clipping(rest) {
            Err(e) => {
                return Err(e);
            },
            Ok((after, clipping)) => {
                proof {
                    lemma_clipping_within(rest.spec_bytes());
                    let first = clipping@;
                    assert(done.push(first).drop_last() =~= done);
                    if let Ok((_, others)) = records_spec(after.spec_bytes()) {
                        assert(done + (seq![first] + others) =~= done.push(first) + others);
                    }
                    done = done.push(first);
                }
                document.add(clipping);
                rest = after;
            },
        }
    }
}

} // verus!
