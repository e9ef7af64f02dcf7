use clippings_parser::order::{book_precedes, bytes_less};
use clippings_parser::parser::is_blank_text;
use clippings_parser::{
    parse, sort_clippings_list, Book, BookClippings, Clipping, ClippingBookmark, ClippingContent,
    ClippingNote, ClippingsList, ClippingsMap, Expected, Location, LocationKind, ParseError,
};

fn book(title: &str, author: Option<&str>) -> Book {
    Book { title: title.to_string(), author: author.map(String::from) }
}

fn note(from: u32, text: &str) -> ClippingContent {
    ClippingContent::Note(ClippingNote {
        location: Location { from, to: None, kind: LocationKind::Page },
        text: text.to_string(),
    })
}

fn bookmark(from: u32) -> ClippingContent {
    ClippingContent::Bookmark(ClippingBookmark {
        location: Location { from, to: None, kind: LocationKind::Page },
    })
}

fn group(title: &str, author: Option<&str>, clippings: Vec<ClippingContent>) -> BookClippings {
    BookClippings { book: book(title, author), clippings }
}

fn note_record(header: &str, page: u32, text: &str) -> String {
    format!("{}\r\n- Your Note on page {} | Added on Monday\r\n\r\n{}\r\n==========\r\n", header, page, text)
}

#[test]
fn new_document_is_empty() {
    let document = ClippingsMap::new();
    assert!(document.is_empty());
    assert_eq!(document.len(), 0);
    assert_eq!(document.get(&book("A", None)), None);
    assert_eq!(document.into_list(), vec![]);
    assert!(ClippingsMap::default().is_empty());
}

#[test]
fn add_appends_to_the_group_of_the_book() {
    let mut document = ClippingsMap::new();
    document.add(Clipping { book: book("A", Some("x")), content: note(1, "one") });
    document.add(Clipping { book: book("B", Some("x")), content: note(2, "two") });
    document.add(Clipping { book: book("A", Some("x")), content: bookmark(3) });
    document.add(Clipping { book: book("A", Some("x")), content: note(1, "one") });

    assert!(!document.is_empty());
    assert_eq!(document.len(), 2);
    assert_eq!(
        document.get(&book("A", Some("x"))),
        Some(&vec![note(1, "one"), bookmark(3), note(1, "one")])
    );
    assert_eq!(document.get(&book("B", Some("x"))), Some(&vec![note(2, "two")]));
    assert_eq!(document.get(&book("C", Some("x"))), None);
    assert_eq!(
        document.into_list(),
        vec![
            group("A", Some("x"), vec![note(1, "one"), bookmark(3), note(1, "one")]),
            group("B", Some("x"), vec![note(2, "two")]),
        ]
    );
}

#[test]
fn books_differ_by_title_or_by_author() {
    let mut document = ClippingsMap::new();
    document.add(Clipping { book: book("A", Some("x")), content: bookmark(1) });
    document.add(Clipping { book: book("A", Some("y")), content: bookmark(2) });
    document.add(Clipping { book: book("A", None), content: bookmark(3) });
    document.add(Clipping { book: book("A", Some("")), content: bookmark(4) });
    document.add(Clipping { book: book("a", Some("x")), content: bookmark(5) });
    document.add(Clipping { book: book("A", None), content: bookmark(6) });

    assert_eq!(document.len(), 5);
    assert_eq!(document.get(&book("A", None)), Some(&vec![bookmark(3), bookmark(6)]));
    assert_eq!(document.get(&book("A", Some(""))), Some(&vec![bookmark(4)]));
    assert_eq!(book("A", Some("x")), book("A", Some("x")));
    assert_ne!(book("A", Some("x")), book("A", None));
    assert_ne!(book("A", None), book("A", Some("")));
    assert_ne!(book("A", None), book("B", None));
}

#[test]
fn three_records_of_two_books_make_two_groups() {
    let input = [
        note_record("One (Ann)", 1, "first"),
        note_record("Two (Ann)", 2, "second"),
        note_record("One (Ann)", 3, "third"),
    ]
    .concat();

    let (rest, document) = parse(&input).unwrap();

    assert_eq!(rest, "");
    assert_eq!(document.len(), 2);
    assert_eq!(
        document.get(&book("One", Some("Ann"))),
        Some(&vec![note(1, "first"), note(3, "third")])
    );
    assert_eq!(document.get(&book("Two", Some("Ann"))), Some(&vec![note(2, "second")]));
    let list: ClippingsList = document.into();
    assert_eq!(
        list,
        vec![
            group("One", Some("Ann"), vec![note(1, "first"), note(3, "third")]),
            group("Two", Some("Ann"), vec![note(2, "second")]),
        ]
    );
}

#[test]
fn groups_stand_in_the_order_of_first_appearance() {
    let input = [
        note_record("Zed (Zoe)", 1, "a"),
        note_record("Abe", 2, "b"),
        note_record("Zed (Zoe)", 3, "c"),
        note_record("Mid (Moe)", 4, "d"),
    ]
    .concat();

    let list: ClippingsList = parse(&input).unwrap().1.into();

    assert_eq!(
        list,
        vec![
            group("Zed", Some("Zoe"), vec![note(1, "a"), note(3, "c")]),
            group("Abe", None, vec![note(2, "b")]),
            group("Mid", Some("Moe"), vec![note(4, "d")]),
        ]
    );
}

#[test]
fn blank_text_is_an_empty_document() {
    for text in ["", "\n", "\r\n", " ", "\t", "  \r\n\r\n \t \n\n", "\n\n\n\n"] {
        let (rest, document) = parse(text).unwrap();
        assert_eq!(rest, text);
        assert!(document.is_empty());
        assert_eq!(document.into_list(), vec![]);
    }
}

#[test]
fn blank_text_is_told_from_any_other() {
    assert!(is_blank_text(""));
    assert!(is_blank_text(" \t\r\n"));
    assert!(is_blank_text("\r"));
    assert!(!is_blank_text(" \t\r\nx"));
    assert!(!is_blank_text("\u{a0}"));
    assert!(!is_blank_text("\u{b}"));
}

#[test]
fn blanks_after_the_last_record_are_left_over() {
    let input = note_record("One (Ann)", 1, "first") + "\r\n \r\n";

    let (rest, document) = parse(&input).unwrap();

    assert_eq!(rest, "\r\n \r\n");
    assert_eq!(document.into_list(), vec![group("One", Some("Ann"), vec![note(1, "first")])]);
}

#[test]
fn blanks_before_a_record_belong_to_its_title() {
    let input = String::from("  ") + &note_record("One (Ann)", 1, "first");

    let list = parse(&input).unwrap().1.into_list();

    assert_eq!(list, vec![group("  One", Some("Ann"), vec![note(1, "first")])]);
}

#[test]
fn a_record_that_cannot_be_read_fails_the_whole_text() {
    let good = note_record("One (Ann)", 1, "first");

    let trailing = good.clone() + "not a record";
    assert_eq!(
        parse(&trailing).unwrap_err(),
        ParseError::Malformed { remaining: 0, expected: Expected::Newline }
    );

    let unknown = good.clone() + "Two\n- Your Dream on page 1 | d\n\nx\n==========\n" + &good;
    let failure = parse(&unknown).unwrap_err();
    assert_eq!(
        failure,
        ParseError::Malformed { remaining: 41 + good.len(), expected: Expected::Tag }
    );
    assert_eq!(failure.offset(unknown.len()), Some(good.len() + 4));

    let first = String::from("x") + &good;
    assert!(parse(&first).is_ok());
    let first = String::from("x\n") + &good;
    assert_eq!(
        parse(&first).unwrap_err(),
        ParseError::Malformed { remaining: good.len(), expected: Expected::Tag }
    );
}

#[test]
fn a_record_that_is_cut_short_fails_the_whole_text() {
    let good = note_record("One (Ann)", 1, "first");
    let cut = good.clone() + &good[..good.len() - 3];

    assert_eq!(parse(&cut).unwrap_err(), ParseError::Incomplete);
    assert_eq!(parse(&good[..good.len() - 1]).unwrap_err(), ParseError::Incomplete);
}

#[test]
fn parsing_twice_gives_the_same() {
    let input = [
        note_record("Zed (Zoe)", 1, "a"),
        note_record("Abe", 2, "b"),
        note_record("Zed (Zoe)", 3, "c"),
    ]
    .concat();

    let (rest1, first) = parse(&input).unwrap();
    let (rest2, second) = parse(&input).unwrap();
    assert_eq!(rest1, rest2);
    assert_eq!(first.into_list(), second.into_list());

    let bad = input + "x";
    assert_eq!(parse(&bad).unwrap_err(), parse(&bad).unwrap_err());
}

#[test]
fn bytes_are_ordered_by_the_first_difference() {
    assert!(bytes_less(b"", b"a"));
    assert!(!bytes_less(b"", b""));
    assert!(!bytes_less(b"a", b""));
    assert!(bytes_less(b"a", b"ab"));
    assert!(!bytes_less(b"ab", b"a"));
    assert!(bytes_less(b"ab", b"b"));
    assert!(bytes_less(b"Z", b"a"));
    assert!(!bytes_less(b"abc", b"abc"));
    assert!(bytes_less(b"ab\x7f", b"ab\x80"));
    assert!(bytes_less("z".as_bytes(), "é".as_bytes()));
}

#[test]
fn books_are_ordered_by_author_then_title() {
    assert!(book_precedes(&book("B", Some("a")), &book("A", Some("b"))));
    assert!(!book_precedes(&book("A", Some("b")), &book("B", Some("a"))));
    assert!(book_precedes(&book("A", Some("a")), &book("B", Some("a"))));
    assert!(!book_precedes(&book("A", Some("a")), &book("A", Some("a"))));
    assert!(book_precedes(&book("Z", None), &book("A", Some(""))));
    assert!(!book_precedes(&book("A", Some("")), &book("Z", None)));
    assert!(book_precedes(&book("A", None), &book("B", None)));
    assert!(!book_precedes(&book("B", None), &book("A", None)));
}

#[test]
fn sort_puts_books_without_author_first() {
    let mut list = vec![
        group("M", Some("b"), vec![bookmark(1)]),
        group("Z", None, vec![bookmark(2)]),
        group("N", Some("a"), vec![bookmark(3)]),
        group("A", Some("b"), vec![bookmark(4)]),
        group("A", None, vec![bookmark(5)]),
        group("B", Some(""), vec![bookmark(6)]),
    ];

    sort_clippings_list(&mut list);

    assert_eq!(
        list,
        vec![
            group("A", None, vec![bookmark(5)]),
            group("Z", None, vec![bookmark(2)]),
            group("B", Some(""), vec![bookmark(6)]),
            group("N", Some("a"), vec![bookmark(3)]),
            group("A", Some("b"), vec![bookmark(4)]),
            group("M", Some("b"), vec![bookmark(1)]),
        ]
    );
}

#[test]
fn sort_keeps_the_order_of_groups_of_one_book() {
    let mut list = vec![
        group("B", Some("x"), vec![bookmark(1)]),
        group("A", Some("x"), vec![bookmark(2)]),
        group("B", Some("x"), vec![bookmark(3)]),
        group("A", Some("x"), vec![bookmark(4)]),
        group("B", Some("x"), vec![]),
    ];

    sort_clippings_list(&mut list);

    assert_eq!(
        list,
        vec![
            group("A", Some("x"), vec![bookmark(2)]),
            group("A", Some("x"), vec![bookmark(4)]),
            group("B", Some("x"), vec![bookmark(1)]),
            group("B", Some("x"), vec![bookmark(3)]),
            group("B", Some("x"), vec![]),
        ]
    );
}

#[test]
fn sort_agrees_with_the_order_of_strings() {
    let titles = ["b", "", "é", "a", "ab", "B", "z", "日本", "a", "~", "Z", " a"];
    let authors = [None, Some(""), Some("é"), Some("a"), Some("B")];
    let mut list: ClippingsList = Vec::new();
    let mut n: u32 = 0;
    for title in titles {
        for author in authors {
            n += 1;
            list.push(group(title, author, vec![bookmark(n)]));
        }
    }
    let mut expected = list.clone();
    expected.sort_by_key(|item| (item.book.author.clone(), item.book.title.clone()));

    sort_clippings_list(&mut list);

    assert_eq!(list, expected);
    sort_clippings_list(&mut list);
    assert_eq!(list, expected);
}

#[test]
fn sort_of_nothing_and_of_one() {
    let mut list: ClippingsList = vec![];
    sort_clippings_list(&mut list);
    assert_eq!(list, vec![]);

    let mut list = vec![group("A", None, vec![bookmark(1)])];
    sort_clippings_list(&mut list);
    assert_eq!(list, vec![group("A", None, vec![bookmark(1)])]);
}

#[test]
fn clone_of_a_document_has_its_groups() {
    let mut document = ClippingsMap::new();
    document.add(Clipping { book: book("A", Some("x")), content: note(1, "one") });
    document.add(Clipping { book: book("B", None), content: bookmark(2) });
    document.add(Clipping { book: book("A", Some("x")), content: bookmark(3) });

    let mut copy = document.clone();
    copy.add(Clipping { book: book("B", None), content: bookmark(4) });

    assert_eq!(
        document.into_list(),
        vec![
            group("A", Some("x"), vec![note(1, "one"), bookmark(3)]),
            group("B", None, vec![bookmark(2)]),
        ]
    );
    assert_eq!(
        copy.into_list(),
        vec![
            group("A", Some("x"), vec![note(1, "one"), bookmark(3)]),
            group("B", None, vec![bookmark(2), bookmark(4)]),
        ]
    );
}

#[test]
fn clone_of_a_clipping_is_the_clipping() {
    let clipping = Clipping { book: book("A", Some("x")), content: note(1, "one") };
    assert_eq!(clipping.clone(), clipping);
    let clipping = Clipping { book: book("A", None), content: bookmark(1) };
    assert_eq!(clipping.clone(), clipping);
    let list = group("A", None, vec![bookmark(5), note(2, "é")]);
    assert_eq!(list.clone(), list);
}
