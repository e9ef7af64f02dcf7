//! The order in which the groups of a document are presented: by author,
//! then by title.
//!
//! Texts are ordered by their UTF-8 bytes, the first difference deciding and
//! a text standing before every text that it begins. A book without an
//! author stands before every book that has one.

use crate::book::{Book, BookView};
use crate::document::{group_views, BookClippings, ClippingsList, GroupView};
use vstd::prelude::*;
use vstd::string::*;
use vstd::utf8::*;

verus! {

/// `a` stands before `b`.
pub open spec fn bytes_lt(a: Seq<u8>, b: Seq<u8>) -> bool
    decreases a.len(),
{
    if b.len() == 0 {
        false
    } else if a.len() == 0 {
        true
    } else if a[0] != b[0] {
        a[0] < b[0]
    } else {
        bytes_lt(a.skip(1), b.skip(1))
    }
}

/// The text `a` stands before the text `b`.
pub open spec fn text_lt(a: Seq<char>, b: Seq<char>) -> bool {
    bytes_lt(encode_utf8(a), encode_utf8(b))
}

/// The author `a` stands before the author `b`; no author stands first.
pub open spec fn author_lt(a: Option<Seq<char>>, b: Option<Seq<char>>) -> bool {
    match (a, b) {
        (None, Some(_)) => true,
        (Some(a), Some(b)) => text_lt(a, b),
        _ => false,
    }
}

/// The book `a` stands before the book `b`: by author, and by title where
/// the authors do not decide.
pub open spec fn book_lt(a: BookView, b: BookView) -> bool {
    author_lt(a.author, b.author) || (!author_lt(b.author, a.author) && text_lt(a.title, b.title))
}

/// `group` put into `sorted` behind the groups that stand before it and
/// ahead of all others.
pub open spec fn insert_sorted(group: GroupView, sorted: Seq<GroupView>) -> Seq<GroupView>
    decreases sorted.len(),
{
    if sorted.len() == 0 || !book_lt(sorted[0].book, group.book) {
        seq![group] + sorted
    } else {
        seq![sorted[0]] + insert_sorted(group, sorted.skip(1))
    }
}

/// The groups in order. Groups that the order does not tell apart keep the
/// order that they came in.
pub open spec fn sort_groups(groups: Seq<GroupView>) -> Seq<GroupView>
    decreases groups.len(),
{
    if groups.len() == 0 {
        groups
    } else {
        insert_sorted(groups[0], sort_groups(groups.skip(1)))
    }
}

/// `insert_sorted` puts the group at the first place whose group does not
/// stand before it.
pub proof fn lemma_insert_sorted_at(group: GroupView, sorted: Seq<GroupView>, p: int)
    requires
        0 <= p <= sorted.len(),
        forall|i: int| 0 <= i < p ==> book_lt((#[trigger] sorted[i]).book, group.book),
        p < sorted.len() ==> !book_lt(sorted[p].book, group.book),
    ensures
        insert_sorted(group, sorted) == sorted.insert(p, group),
    decreases p,
{
    if p > 0 {
        lemma_insert_sorted_at(group, sorted.skip(1), p - 1);
    }
}

/// No byte sequence stands before itself, and of two at most one stands
/// before the other.
pub proof fn lemma_bytes_lt_asymmetric(a: Seq<u8>, b: Seq<u8>)
    ensures
        bytes_lt(a, b) ==> !bytes_lt(b, a),
    decreases a.len(),
{
    if a.len() > 0 && b.len() > 0 && a[0] == b[0] {
        lemma_bytes_lt_asymmetric(a.skip(1), b.skip(1));
    }
}

/// Of two byte sequences that differ, one stands before the other.
pub proof fn lemma_bytes_lt_total(a: Seq<u8>, b: Seq<u8>)
    ensures
        a == b || bytes_lt(a, b) || bytes_lt(b, a),
    decreases a.len(),
{
    if a.len() > 0 && b.len() > 0 && a[0] == b[0] {
        lemma_bytes_lt_total(a.skip(1), b.skip(1));
        if a.skip(1) == b.skip(1) {
            assert forall|i: int| 0 <= i < a.len() implies a[i] == b[i] by {
                if i > 0 {
                    assert(b[i] == b.skip(1)[i - 1]);
                }
            }
            assert(b.len() == b.skip(1).len() + 1);
        }
    }
}

/// What stands before `c` stands before `b`, or `b` stands before `c`.
pub proof fn lemma_bytes_lt_between(a: Seq<u8>, b: Seq<u8>, c: Seq<u8>)
    ensures
        bytes_lt(a, c) ==> bytes_lt(a, b) || bytes_lt(b, c),
    decreases a.len(),
{
    if a.len() > 0 && b.len() > 0 && c.len() > 0 && a[0] == b[0] && b[0] == c[0] {
        lemma_bytes_lt_between(a.skip(1), b.skip(1), c.skip(1));
    }
}

/// Of two books at most one stands before the other.
pub proof fn lemma_book_lt_asymmetric(a: BookView, b: BookView)
    ensures
        book_lt(a, b) ==> !book_lt(b, a),
{
    lemma_bytes_lt_asymmetric(encode_utf8(a.title), encode_utf8(b.title));
    if let Some(x) = a.author {
        if let Some(y) = b.author {
            lemma_bytes_lt_asymmetric(encode_utf8(x), encode_utf8(y));
        }
    }
}

/// Of two books that differ, one stands before the other: the order leaves
/// no two books undecided.
pub proof fn lemma_book_lt_total(a: BookView, b: BookView)
    ensures
        a == b || book_lt(a, b) || book_lt(b, a),
{
    lemma_bytes_lt_total(encode_utf8(a.title), encode_utf8(b.title));
    encode_utf8_decode_utf8(a.title);
    encode_utf8_decode_utf8(b.title);
    if let Some(x) = a.author {
        if let Some(y) = b.author {
            lemma_bytes_lt_total(encode_utf8(x), encode_utf8(y));
            lemma_bytes_lt_asymmetric(encode_utf8(x), encode_utf8(y));
            lemma_bytes_lt_asymmetric(encode_utf8(y), encode_utf8(x));
            encode_utf8_decode_utf8(x);
            encode_utf8_decode_utf8(y);
        }
    }
}

/// A book that stands before `c` stands before `b`, or `b` stands before `c`.
pub proof fn lemma_book_lt_between(a: BookView, b: BookView, c: BookView)
    ensures
        book_lt(a, c) ==> book_lt(a, b) || book_lt(b, c),
{
    lemma_bytes_lt_between(encode_utf8(a.title), encode_utf8(b.title), encode_utf8(c.title));
    match (a.author, b.author, c.author) {
        (Some(x), Some(y), Some(z)) => {
            lemma_bytes_lt_between(encode_utf8(x), encode_utf8(y), encode_utf8(z));
            lemma_bytes_lt_between(encode_utf8(y), encode_utf8(x), encode_utf8(z));
            lemma_bytes_lt_between(encode_utf8(z), encode_utf8(x), encode_utf8(y));
            lemma_bytes_lt_between(encode_utf8(y), encode_utf8(z), encode_utf8(x));
            lemma_bytes_lt_between(encode_utf8(z), encode_utf8(y), encode_utf8(x));
            lemma_bytes_lt_between(encode_utf8(x), encode_utf8(z), encode_utf8(y));
        },
        _ => {},
    }
}

/// No group stands before a group that comes earlier.
pub open spec fn is_ordered(groups: Seq<GroupView>) -> bool {
    forall|i: int, j: int|
        0 <= i < j < groups.len() ==> !book_lt((#[trigger] groups[j]).book, (#[trigger] groups[i]).book)
}

/// The place that `insert_sorted` puts `group` at: the number of groups at
/// the start of `sorted` that stand before it.
pub open spec fn insertion_place(group: GroupView, sorted: Seq<GroupView>) -> int
    decreases sorted.len(),
{
    if sorted.len() == 0 || !book_lt(sorted[0].book, group.book) {
        0
    } else {
        1 + insertion_place(group, sorted.skip(1))
    }
}

/// What `insertion_place` says of the groups around it.
pub proof fn lemma_insertion_place(group: GroupView, sorted: Seq<GroupView>)
    ensures
        0 <= insertion_place(group, sorted) <= sorted.len(),
        forall|i: int|
            0 <= i < insertion_place(group, sorted) ==> book_lt(
                (#[trigger] sorted[i]).book,
                group.book,
            ),
        insertion_place(group, sorted) < sorted.len() ==> !book_lt(
            sorted[insertion_place(group, sorted)].book,
            group.book,
        ),
        insert_sorted(group, sorted) == sorted.insert(insertion_place(group, sorted), group),
    decreases sorted.len(),
{
    let p = insertion_place(group, sorted);
    if sorted.len() > 0 && book_lt(sorted[0].book, group.book) {
        let tail = sorted.skip(1);
        lemma_insertion_place(group, tail);
        assert forall|i: int| 0 <= i < p implies book_lt((#[trigger] sorted[i]).book, group.book) by {
            if i > 0 {
                assert(sorted[i] == tail[i - 1]);
            }
        }
    }
    lemma_insert_sorted_at(group, sorted, p);
}

/// Inserting a group into groups in order leaves them in order.
pub proof fn lemma_insert_sorted_ordered(group: GroupView, sorted: Seq<GroupView>)
    requires
        is_ordered(sorted),
    ensures
        is_ordered(insert_sorted(group, sorted)),
{
    lemma_insertion_place(group, sorted);
    let p = insertion_place(group, sorted);
    let after = sorted.insert(p, group);
    assert forall|i: int, j: int| 0 <= i < j < after.len() implies !book_lt(
        (#[trigger] after[j]).book,
        (#[trigger] after[i]).book,
    ) by {
        if j == p {
            lemma_book_lt_asymmetric(sorted[i].book, group.book);
        } else if i == p {
            lemma_book_lt_between(sorted[j - 1].book, sorted[p].book, group.book);
        }
    }
}

/// The sorted groups are in order: by author, then by title.
pub proof fn lemma_sort_groups_ordered(groups: Seq<GroupView>)
    ensures
        is_ordered(sort_groups(groups)),
    decreases groups.len(),
{
    if groups.len() > 0 {
        lemma_sort_groups_ordered(groups.skip(1));
        lemma_insert_sorted_ordered(groups[0], sort_groups(groups.skip(1)));
    }
}

/// Sorting neither drops a group nor makes one up: the sorted groups are the
/// given groups, each as often as it was given.
pub proof fn lemma_sort_groups_permutes(groups: Seq<GroupView>)
    ensures
        sort_groups(groups).to_multiset() == groups.to_multiset(),
        sort_groups(groups).len() == groups.len(),
    decreases groups.len(),
{
    if groups.len() > 0 {
        let tail = groups.skip(1);
        let sorted_tail = sort_groups(tail);
        lemma_sort_groups_permutes(tail);
        lemma_insertion_place(groups[0], sorted_tail);
        vstd::seq_lib::to_multiset_insert(
            sorted_tail,
            insertion_place(groups[0], sorted_tail),
            groups[0],
        );
        vstd::seq_lib::to_multiset_insert(tail, 0, groups[0]);
        assert(tail.insert(0, groups[0]) =~= groups);
    }
}

/// Sorting keeps the groups of each book in the order that they had.
pub proof fn lemma_sort_groups_stable(groups: Seq<GroupView>, book: BookView)
    ensures
        groups_of(sort_groups(groups), book) == groups_of(groups, book),
    decreases groups.len(),
{
    if groups.len() > 0 {
        let first = groups[0];
        let tail = groups.skip(1);
        let sorted_tail = sort_groups(tail);
        lemma_sort_groups_stable(tail, book);
        lemma_insertion_place(first, sorted_tail);
        let p = insertion_place(first, sorted_tail);
        let head = sorted_tail.take(p);
        let rest = sorted_tail.skip(p);
        assert(sorted_tail.insert(p, first) =~= head + (seq![first] + rest));
        assert(sorted_tail =~= head + rest);
        lemma_groups_of_concat(head, seq![first] + rest, book);
        lemma_groups_of_concat(seq![first], rest, book);
        lemma_groups_of_concat(head, rest, book);
        lemma_groups_of_concat(seq![first], tail, book);
        assert(seq![first] + tail =~= groups);
        assert(groups_of(seq![first], book) =~= if first.book == book {
            seq![first]
        } else {
            Seq::<GroupView>::empty()
        }) by {
            reveal_with_fuel(groups_of, 2);
        }
        if first.book == book {
            assert forall|i: int| 0 <= i < head.len() implies (#[trigger] head[i]).book != book by {
                lemma_book_lt_asymmetric(head[i].book, first.book);
            }
            lemma_groups_of_none(head, book);
            assert(Seq::<GroupView>::empty() + (seq![first] + groups_of(rest, book)) =~= seq![first]
                + groups_of(rest, book));
        }
    }
}

/// The groups of `book` among `groups`, in their order.
pub open spec fn groups_of(groups: Seq<GroupView>, book: BookView) -> Seq<GroupView>
    decreases groups.len(),
{
    if groups.len() == 0 {
        Seq::empty()
    } else {
        let earlier = groups_of(groups.drop_last(), book);
        if groups.last().book == book {
            earlier.push(groups.last())
        } else {
            earlier
        }
    }
}

/// The groups of a book among two runs of groups are those among the first
/// run, then those among the second.
pub proof fn lemma_groups_of_concat(a: Seq<GroupView>, b: Seq<GroupView>, book: BookView)
    ensures
        groups_of(a + b, book) == groups_of(a, book) + groups_of(b, book),
    decreases b.len(),
{
    if b.len() == 0 {
    } else {
        lemma_groups_of_concat(a, b.drop_last(), book);
        assert((a + b).drop_last() =~= a + b.drop_last());
        if b.last().book == book {
            assert((groups_of(a, book) + groups_of(b.drop_last(), book)).push(b.last())
                =~= groups_of(a, book) + groups_of(b.drop_last(), book).push(b.last()));
        }
    }
}

/// Where no group is that of `book`, there are no groups of `book`.
pub proof fn lemma_groups_of_none(groups: Seq<GroupView>, book: BookView)
    requires
        forall|i: int| 0 <= i < groups.len() ==> (#[trigger] groups[i]).book != book,
    ensures
        groups_of(groups, book) == Seq::<GroupView>::empty(),
    decreases groups.len(),
{
    if groups.len() > 0 {
        lemma_groups_of_none(groups.drop_last(), book);
    }
}

/// Says whether `a` stands before `b`.
pub fn bytes_less(a: &[u8], b: &[u8]) -> (r: bool)
    ensures
        r == bytes_lt(a@, b@),
{
    let mut i: usize = 0;
    proof {
        assert(a@.skip(0) =~= a@);
        assert(b@.skip(0) =~= b@);
    }
    while i < a.len() && i < b.len()
        invariant
            i <= a.len(),
            i <= b.len(),
            bytes_lt(a@, b@) == bytes_lt(a@.skip(i as int), b@.skip(i as int)),
        decreases a.len() - i,
    {
        if a[i] != b[i] {
            return a[i] < b[i];
        }
        proof {
            assert(a@.skip(i as int).skip(1) =~= a@.skip(i + 1));
            assert(b@.skip(i as int).skip(1) =~= b@.skip(i + 1));
        }
        i += 1;
    }
    i < b.len()
}

/// Says whether the author `a` stands before the author `b`.
pub fn author_precedes(a: &Option<String>, b: &Option<String>) -> (r: bool)
    ensures
        r == author_lt(
            match a {
                Some(a) => Some(a@),
                None => None,
            },
            match b {
                Some(b) => Some(b@),
                None => None,
            },
        ),
{
    match b {
        None => false,
        Some(b) => match a {
            None => true,
            Some(a) => bytes_less(a.as_str().as_bytes(), b.as_str().as_bytes()),
        },
    }
}

/// Says whether the book `a` stands before the book `b`.
pub fn book_precedes(a: &Book, b: &Book) -> (r: bool)
    ensures
        r == book_lt(a@, b@),
{
    if author_precedes(&a.author, &b.author) {
        true
    } else if author_precedes(&b.author, &a.author) {
        false
    } else {
        bytes_less(a.title.as_str().as_bytes(), b.title.as_str().as_bytes())
    }
}

/// Puts the groups in order: by author, a book without one first, then by
/// title. Groups of one and the same book keep their order.
pub fn sort_clippings_list(list: &mut ClippingsList)
    ensures
        group_views(final(list)@) == sort_groups(group_views(old(list)@)),
{
    let ghost given = group_views(list@);
    let mut sorted: Vec<BookClippings> = Vec::new();
    while list.len() > 0
        invariant
            list@.len() <= given.len(),
            group_views(list@) == given.take(list@.len() as int),
            group_views(sorted@) == sort_groups(given.skip(list@.len() as int)),
        decreases list.len(),
    {
        let ghost before = list@;
        let ghost k = list@.len() as int;
        match list.pop() {
            None => {},
            Some(group) => {
                proof {
                    assert(group@ == group_views(before)[k - 1]);
                    assert(given.skip(k - 1).skip(1) =~= given.skip(k));
                }
                let mut p: usize = 0;
                while p < sorted.len() && book_precedes(&sorted[p].book, &group.book)
                    invariant
                        p <= sorted.len(),
                        forall|i: int|
                            0 <= i < p ==> book_lt(
                                (#[trigger] group_views(sorted@)[i]).book,
                                group@.book,
                            ),
                    decreases sorted.len() - p,
                {
                    p += 1;
                }
                proof {
                    lemma_insert_sorted_at(group@, group_views(sorted@), p as int);
                }
                sorted.insert(p, group);
            },
        }
    }
    proof {
        assert(given.skip(0) =~= given);
    }
    *list = sorted;
}

} // verus!
