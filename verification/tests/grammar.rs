use clippings_parser::text::{parse_spaces, tag_no_case, take_run, ByteClass};
use clippings_parser::{
    parse_clipping, parse_clipping_bookmark, parse_clipping_highlight, parse_location,
    parse_newline, parse_title, parse_until, parse_until_clipping_end,
    parse_until_multi_newline, parse_until_newline, tag, Book, Clipping, ClippingBookmark,
    ClippingContent, ClippingHighlight, Expected, Location, LocationKind, ParseError,
};

fn malformed(remaining: usize, expected: Expected) -> ParseError {
    ParseError::Malformed { remaining, expected }
}

#[test]
fn tag_takes_the_literal_and_leaves_the_rest() {
    assert_eq!(tag("- Your Note at", "- Your Note "), Ok(("at", "- Your Note ")));
    assert_eq!(tag("abc", ""), Ok(("abc", "")));
    assert_eq!(tag("été", "é"), Ok(("té", "é")));
}

#[test]
fn tag_fails_at_the_start_of_the_text() {
    assert_eq!(tag("- your note ", "- Your Note "), Err(malformed(12, Expected::Tag)));
    assert_eq!(tag("ab", "abc"), Err(malformed(2, Expected::Tag)));
    assert_eq!(tag("", "x"), Err(malformed(0, Expected::Tag)));
}

#[test]
fn tag_no_case_returns_the_text_as_it_was_written() {
    assert_eq!(tag_no_case("At LoCaTiOn 5", "at location"), Ok((" 5", "At LoCaTiOn")));
    assert_eq!(tag_no_case("on page", "ON PAGE"), Ok(("", "on page")));
    assert_eq!(tag_no_case("on pag", "on page"), Err(malformed(6, Expected::Tag)));
}

#[test]
fn tag_no_case_folds_ascii_letters_only() {
    // The Kelvin sign lower-cases to `k` in Unicode. It is no ASCII letter.
    assert_eq!(tag_no_case("\u{212a}", "k"), Err(malformed(3, Expected::Tag)));
    assert_eq!(tag_no_case("É", "é"), Err(malformed(2, Expected::Tag)));
    assert_eq!(tag_no_case("é", "é"), Ok(("", "é")));
    // `@` and `` ` `` stand one place before `A` and `a`, `[` and `{` one after `Z` and `z`.
    assert_eq!(tag_no_case("@", "`"), Err(malformed(1, Expected::Tag)));
    assert_eq!(tag_no_case("[", "{"), Err(malformed(1, Expected::Tag)));
}

#[test]
fn runs_stop_at_the_first_byte_outside_the_class() {
    assert_eq!(take_run("123abc", ByteClass::Digit), ("abc", "123"));
    assert_eq!(take_run("abc", ByteClass::Digit), ("abc", ""));
    assert_eq!(take_run("/0:", ByteClass::Digit), ("/0:", ""));
    assert_eq!(take_run(" \t x", ByteClass::Space), ("x", " \t "));
    assert_eq!(take_run("día\r\nx", ByteClass::Line), ("\r\nx", "día"));
    assert_eq!(take_run(" \r\n\t\n", ByteClass::Blank), ("", " \r\n\t\n"));
    assert_eq!(take_run("", ByteClass::Line), ("", ""));
}

#[test]
fn spaces_need_one_space_or_tab() {
    assert_eq!(parse_spaces(" \t| x"), Ok(("| x", " \t")));
    assert_eq!(parse_spaces("| x"), Err(malformed(3, Expected::Space)));
    assert_eq!(parse_spaces("\r\n"), Err(malformed(2, Expected::Space)));
}

#[test]
fn newline_is_crlf_or_lf() {
    assert_eq!(parse_newline("\r\nx"), Ok(("x", ())));
    assert_eq!(parse_newline("\nx"), Ok(("x", ())));
    assert_eq!(parse_newline("\n\r\n"), Ok(("\r\n", ())));
    assert_eq!(parse_newline("\rx"), Err(malformed(2, Expected::Newline)));
    assert_eq!(parse_newline("\r"), Err(malformed(1, Expected::Newline)));
    assert_eq!(parse_newline(""), Err(malformed(0, Expected::Newline)));
    assert_eq!(parse_newline("x\n"), Err(malformed(2, Expected::Newline)));
}

#[test]
fn until_newline_takes_one_line_ending() {
    assert_eq!(parse_until_newline("abc\r\n\r\nx"), Ok(("\r\nx", "abc")));
    assert_eq!(parse_until_newline("\nx"), Ok(("x", "")));
    assert_eq!(parse_until_newline("abc"), Err(malformed(0, Expected::Newline)));
    assert_eq!(parse_until_newline("abc\rdef\n"), Err(malformed(5, Expected::Newline)));
}

#[test]
fn until_multi_newline_takes_all_line_endings_of_both_kinds() {
    assert_eq!(parse_until_multi_newline("abc\r\n\n\r\nx\n"), Ok(("x\n", "abc")));
    assert_eq!(parse_until_multi_newline("abc\n"), Ok(("", "abc")));
    assert_eq!(parse_until_multi_newline("abc\n\r"), Ok(("\r", "abc")));
    assert_eq!(parse_until_multi_newline("abc"), Err(malformed(0, Expected::Newline)));
    assert_eq!(parse_until_multi_newline("a\rb"), Err(malformed(2, Expected::Newline)));
}

#[test]
fn title_is_split_at_the_last_mark() {
    assert_eq!(parse_title("A (B) (C)\n"), Ok(("", ("A (B)", Some("C")))));
    assert_eq!(parse_title(" (X)\n"), Ok(("", ("", Some("X")))));
    assert_eq!(parse_title("A ((B)\n"), Ok(("", ("A", Some("(B")))));
    assert_eq!(parse_title("A(B)\n"), Ok(("", ("A(B)", None))));
    assert_eq!(parse_title("A  (B)\n"), Ok(("", ("A ", Some("B")))));
    assert_eq!(parse_title("\n"), Ok(("", ("", None))));
}

#[test]
fn title_strips_one_closing_parenthesis_where_there_is_one() {
    assert_eq!(parse_title("Foo (Bar))\nx"), Ok(("x", ("Foo", Some("Bar)")))));
    assert_eq!(parse_title("Foo (Bar\nx"), Ok(("x", ("Foo", Some("Bar")))));
    assert_eq!(parse_title("Foo (\nx"), Ok(("x", ("Foo", Some("")))));
    assert_eq!(parse_title("Foo ()\nx"), Ok(("x", ("Foo", Some("")))));
    assert_eq!(parse_title("Foo (Bar) \nx"), Ok(("x", ("Foo", Some("Bar) ")))));
}

#[test]
fn title_keeps_characters_of_several_bytes_whole() {
    assert_eq!(
        parse_title("L’Étranger (Albert Camus é)\r\n\r\nx"),
        Ok(("x", ("L’Étranger", Some("Albert Camus é"))))
    );
    assert_eq!(parse_title("日本語 (著者\n"), Ok(("", ("日本語", Some("著者")))));
    assert_eq!(parse_title("\u{feff}Flow (A)\n"), Ok(("", ("\u{feff}Flow", Some("A")))));
}

#[test]
fn title_needs_a_line_ending() {
    assert_eq!(parse_title("Flow (A)"), Err(malformed(0, Expected::Newline)));
    assert_eq!(parse_title(""), Err(malformed(0, Expected::Newline)));
    assert_eq!(parse_title("Flow\rx\n"), Err(malformed(3, Expected::Newline)));
}

#[test]
fn location_keyword_in_any_case() {
    assert_eq!(
        parse_location("AT LOCATION 5"),
        Ok(("", Location { from: 5, to: None, kind: LocationKind::Location }))
    );
    assert_eq!(
        parse_location("On Page 7-9 |"),
        Ok((" |", Location { from: 7, to: Some(9), kind: LocationKind::Page }))
    );
}

#[test]
fn location_with_an_unknown_keyword_is_malformed() {
    assert_eq!(parse_location("in chapter 3"), Err(malformed(12, Expected::Tag)));
    assert_eq!(parse_location("at locatİon 5"), Err(malformed(14, Expected::Tag)));
    assert_eq!(parse_location(""), Err(malformed(0, Expected::Tag)));
}

#[test]
fn location_needs_one_space_and_a_digit() {
    assert_eq!(parse_location("at location"), Err(malformed(0, Expected::Tag)));
    assert_eq!(parse_location("at location\t5"), Err(malformed(2, Expected::Tag)));
    assert_eq!(parse_location("at location x"), Err(malformed(1, Expected::Digit)));
    assert_eq!(parse_location("at location  5"), Err(malformed(2, Expected::Digit)));
    assert_eq!(parse_location("on page -5"), Err(malformed(2, Expected::Digit)));
    assert_eq!(parse_location("on page +5"), Err(malformed(2, Expected::Digit)));
}

#[test]
fn location_numbers_are_decimal_and_fit_32_bits() {
    assert_eq!(
        parse_location("on page 4294967295"),
        Ok(("", Location { from: 4294967295, to: None, kind: LocationKind::Page }))
    );
    assert_eq!(parse_location("on page 4294967296"), Err(malformed(10, Expected::Number)));
    assert_eq!(parse_location("on page 99999999999 x"), Err(malformed(13, Expected::Number)));
    assert_eq!(
        parse_location("on page 0000000000000000000012"),
        Ok(("", Location { from: 12, to: None, kind: LocationKind::Page }))
    );
    assert_eq!(
        parse_location("on page 0"),
        Ok(("", Location { from: 0, to: None, kind: LocationKind::Page }))
    );
    assert_eq!(
        parse_location("on page 12a"),
        Ok(("a", Location { from: 12, to: None, kind: LocationKind::Page }))
    );
}

#[test]
fn location_range_that_cannot_be_read_is_left_in_the_text() {
    let single = Location { from: 12, to: None, kind: LocationKind::Location };
    assert_eq!(parse_location("at location 12-x"), Ok(("-x", single)));
    assert_eq!(parse_location("at location 12-"), Ok(("-", single)));
    assert_eq!(parse_location("at location 12-4294967296"), Ok(("-4294967296", single)));
    assert_eq!(parse_location("at location 12 -13"), Ok((" -13", single)));
    assert_eq!(
        parse_location("at location 12-11"),
        Ok(("", Location { from: 12, to: Some(11), kind: LocationKind::Location }))
    );
    assert_eq!(
        parse_location("at location 12-13-14"),
        Ok(("-14", Location { from: 12, to: Some(13), kind: LocationKind::Location }))
    );
}

#[test]
fn scan_tries_the_start_of_each_character_and_no_other_place() {
    // The second byte of `é` is the first byte of no character.
    let tried = std::cell::RefCell::new(Vec::new());
    let res = parse_until("aé€b", |s| {
        tried.borrow_mut().push(s.to_string());
        tag(s, "never")
    });
    assert_eq!(res, Err(ParseError::Incomplete));
    assert_eq!(*tried.borrow(), vec!["aé€b", "é€b", "€b", "b"]);
}

#[test]
fn scan_stops_at_the_first_match() {
    assert_eq!(parse_until("a--b--c", |s| tag(s, "--")), Ok(("b--c", "a")));
    assert_eq!(parse_until("--b", |s| tag(s, "--")), Ok(("b", "")));
    assert_eq!(parse_until("日本語。終", |s| tag(s, "。")), Ok(("終", "日本語")));
}

#[test]
fn scan_without_a_match_is_incomplete() {
    assert_eq!(parse_until("abc", |s| tag(s, "x")), Err(ParseError::Incomplete));
    assert_eq!(parse_until("xx", |s| tag(s, "xxx")), Err(ParseError::Incomplete));
}

#[test]
fn scan_does_not_try_the_end_of_the_text() {
    assert_eq!(parse_until("", |s| tag(s, "")), Err(ParseError::Incomplete));
    assert_eq!(parse_until("ab", |s| tag(s, "")), Ok(("ab", "")));
}

#[test]
fn scan_takes_any_failure_of_the_terminator_for_no_match() {
    let res = parse_until("ab;c", |s| {
        if s.starts_with(';') {
            Ok((&s[1..], 7u8))
        } else {
            Err(ParseError::Incomplete)
        }
    });
    assert_eq!(res, Ok(("c", "ab")));
}

#[test]
fn clipping_end_is_found_with_either_line_ending() {
    assert_eq!(parse_until_clipping_end("body\n==========\nnext"), Ok(("next", "body")));
    assert_eq!(parse_until_clipping_end("body\r\n==========\nnext"), Ok(("next", "body")));
    assert_eq!(parse_until_clipping_end("body\n==========\r\n"), Ok(("", "body")));
    assert_eq!(parse_until_clipping_end("a\n\n==========\n"), Ok(("", "a\n")));
    assert_eq!(parse_until_clipping_end("\n==========\n"), Ok(("", "")));
}

#[test]
fn clipping_end_needs_ten_signs_between_two_line_endings() {
    assert_eq!(parse_until_clipping_end("body\n=========\n"), Err(ParseError::Incomplete));
    assert_eq!(parse_until_clipping_end("body\n=========="), Err(ParseError::Incomplete));
    assert_eq!(parse_until_clipping_end("==========\n"), Err(ParseError::Incomplete));
    assert_eq!(parse_until_clipping_end("body\r==========\n"), Err(ParseError::Incomplete));
    assert_eq!(parse_until_clipping_end(""), Err(ParseError::Incomplete));
    // Eleven signs: the line ending does not follow the tenth.
    assert_eq!(parse_until_clipping_end("body\n===========\n"), Err(ParseError::Incomplete));
}

#[test]
fn highlight_text_may_hold_several_lines_and_any_characters() {
    let res = parse_clipping_highlight(
        "- Your Highlight on page 3 | Added\r\n\r\n«Línea uno»\nline two\r\n=========\r\n==========\r\nrest",
    );
    assert_eq!(
        res,
        Ok((
            "rest",
            ClippingContent::Highlight(ClippingHighlight {
                location: Location { from: 3, to: None, kind: LocationKind::Page },
                text: "«Línea uno»\nline two\r\n=========".to_string()
            })
        ))
    );
}

#[test]
fn highlight_without_a_text_runs_on_to_the_next_closing_line() {
    // The blank lines after the date take the line ending of the closing line with them.
    assert_eq!(
        parse_clipping_highlight("- Your Highlight on page 3 | d\n\n\n==========\n"),
        Err(ParseError::Incomplete)
    );
    assert_eq!(
        parse_clipping_highlight("- Your Highlight on page 3 | d\n\n==========\nx\n==========\n"),
        Ok((
            "",
            ClippingContent::Highlight(ClippingHighlight {
                location: Location { from: 3, to: None, kind: LocationKind::Page },
                text: "==========\nx".to_string()
            })
        ))
    );
}

#[test]
fn highlight_needs_a_blank_after_the_location() {
    assert_eq!(
        parse_clipping_highlight("- Your Highlight on page 3| d\n\nx\n==========\n"),
        Err(malformed(18, Expected::Space))
    );
    assert_eq!(
        parse_clipping_highlight("- Your Highlight on page 3-x | d\n\nx\n==========\n"),
        Err(malformed(21, Expected::Space))
    );
}

#[test]
fn bookmark_drops_what_stands_before_the_closing_line() {
    let bookmark = ClippingContent::Bookmark(ClippingBookmark {
        location: Location { from: 9, to: None, kind: LocationKind::Page },
    });
    assert_eq!(
        parse_clipping_bookmark("- Your Bookmark on page 9 | d\n\n==========\nx"),
        Ok(("x", bookmark.clone()))
    );
    assert_eq!(
        parse_clipping_bookmark("- Your Bookmark on page 9 | d\nstray text\n==========\nx"),
        Ok(("x", bookmark.clone()))
    );
    // The one line ending after the date is taken before the closing line is looked for.
    assert_eq!(
        parse_clipping_bookmark("- Your Bookmark on page 9 | d\n==========\n"),
        Err(ParseError::Incomplete)
    );
}

#[test]
fn clipping_reports_the_failure_of_the_last_kind_tried() {
    // No type tag matches: the article clip fails at the start of the line.
    assert_eq!(
        parse_clipping("T\n- Your Thought on page 1 | d\n\nx\n==========\n"),
        Err(malformed(43, Expected::Tag))
    );
    // The highlight fails at its location; the article clip, tried last, at its tag.
    assert_eq!(
        parse_clipping("T\n- Your Highlight in chapter 1 | d\n\nx\n==========\n"),
        Err(malformed(48, Expected::Tag))
    );
    // The article clip fails at its location, and nothing is tried after it.
    assert_eq!(
        parse_clipping("T\n- Clip This Article in chapter 1 | d\n\nx\n==========\n"),
        Err(malformed(31, Expected::Tag))
    );
    assert_eq!(parse_clipping("T\n"), Err(malformed(0, Expected::Tag)));
}

#[test]
fn clipping_that_is_cut_short_is_incomplete() {
    assert_eq!(
        parse_clipping("T\n- Your Note on page 1 | d\n\nthe text goes on"),
        Err(ParseError::Incomplete)
    );
    // A highlight that is cut short is not tried as another kind.
    assert_eq!(
        parse_clipping("T\n- Your Highlight on page 1 | d\n\nx\n=========="),
        Err(ParseError::Incomplete)
    );
}

#[test]
fn clipping_type_tags_are_matched_to_the_letter() {
    assert_eq!(
        parse_clipping("T\n- your highlight on page 1 | d\n\nx\n==========\n"),
        Err(malformed(45, Expected::Tag))
    );
}

#[test]
fn clipping_without_author() {
    assert_eq!(
        parse_clipping("My Clippings\n- Your Bookmark on page 2 | d\n\n==========\n"),
        Ok((
            "",
            Clipping {
                book: Book { title: "My Clippings".to_string(), author: None },
                content: ClippingContent::Bookmark(ClippingBookmark {
                    location: Location { from: 2, to: None, kind: LocationKind::Page }
                })
            }
        ))
    );
}

#[test]
fn offset_counts_from_the_start_of_the_text() {
    let text = "T\n- Your Highlight in chapter 1 | d\n\nx\n==========\n";
    let failure = parse_clipping_highlight(&text[2..]).unwrap_err();
    assert_eq!(failure, malformed(31, Expected::Tag));
    assert_eq!(failure.offset(text.len()), Some(19));
    assert_eq!(&text[19..29], "in chapter");
    assert_eq!(failure.offset(30), None);
    assert_eq!(failure.offset(31), Some(0));
    assert_eq!(ParseError::Incomplete.offset(text.len()), None);
}
