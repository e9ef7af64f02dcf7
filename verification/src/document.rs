//! The document: the clippings of a text, grouped by book.

use crate::book::{Book, BookView};
use crate::clipping::{Clipping, ClippingContent, ClippingView, ContentView};
use vstd::prelude::*;
use vstd::std_specs::convert::FromSpecImpl;

verus! {

/// A book with its clippings, in the order in which they were read.
#[derive(Debug, PartialEq, Eq)]
pub struct BookClippings {
    pub book: Book,
    pub clippings: Vec<ClippingContent>,
}

impl Clone for BookClippings {
    fn clone(&self) -> (r: Self)
        ensures
            r.book == self.book,
            r.clippings@ == self.clippings@,
            r@ == self@,
    {
        let clippings = self.clippings.clone();
        BookClippings { book: self.book.clone(), clippings }
    }
}

/// A book's view with the views of its clippings.
pub struct GroupView {
    pub book: BookView,
    pub clippings: Seq<ContentView>,
}

/// The views of a run of clippings.
pub open spec fn content_views(clippings: Seq<ClippingContent>) -> Seq<ContentView> {
    clippings.map_values(|c: ClippingContent| c@)
}

impl View for BookClippings {
    type V = GroupView;

    open spec fn view(&self) -> GroupView {
        GroupView { book: self.book@, clippings: content_views(self.clippings@) }
    }
}

/// The groups of a document as a list.
pub type ClippingsList = Vec<BookClippings>;

/// The views of a list of groups.
pub open spec fn group_views(list: Seq<BookClippings>) -> Seq<GroupView> {
    list.map_values(|g: BookClippings| g@)
}

/// Some group is that of `book`.
pub open spec fn has_book(groups: Seq<GroupView>, book: BookView) -> bool {
    exists|i: int| 0 <= i < groups.len() && #[trigger] groups[i].book == book
}

/// The place of the group of `book`, where there is one.
pub open spec fn index_of_book(groups: Seq<GroupView>, book: BookView) -> int {
    choose|i: int| 0 <= i < groups.len() && #[trigger] groups[i].book == book
}

/// No book has two groups.
pub open spec fn distinct_books(groups: Seq<GroupView>) -> bool {
    forall|i: int, j: int|
        0 <= i < j < groups.len() ==> (#[trigger] groups[i]).book != (#[trigger] groups[j]).book
}

/// The groups as a mapping from each book to its clippings.
pub open spec fn as_map(groups: Seq<GroupView>) -> Map<BookView, Seq<ContentView>> {
    Map::new(
        |book: BookView| has_book(groups, book),
        |book: BookView| groups[index_of_book(groups, book)].clippings,
    )
}

/// The groups after one more clipping: it goes to the end of the group of its
/// book, or, where its book has none yet, into a new group at the end.
pub open spec fn add_to_groups(groups: Seq<GroupView>, clipping: ClippingView) -> Seq<GroupView> {
    if has_book(groups, clipping.book) {
        let i = index_of_book(groups, clipping.book);
        groups.update(
            i,
            GroupView { book: clipping.book, clippings: groups[i].clippings.push(clipping.content) },
        )
    } else {
        groups.push(GroupView { book: clipping.book, clippings: seq![clipping.content] })
    }
}

/// The groups of a run of clippings, added one by one from the first on.
pub open spec fn collect(clippings: Seq<ClippingView>) -> Seq<GroupView>
    decreases clippings.len(),
{
    if clippings.len() == 0 {
        Seq::empty()
    } else {
        add_to_groups(collect(clippings.drop_last()), clippings.last())
    }
}

/// The clippings of a document by book. Each book has one group; the groups
/// stand in the order in which their books first appeared.
#[derive(Debug)]
pub struct ClippingsMap {
    entries: Vec<BookClippings>,
}

impl ClippingsMap {
    #[verifier::type_invariant]
    spec fn books_are_distinct(self) -> bool {
        distinct_books(group_views(self.entries@))
    }

    /// The groups, in the order in which their books first appeared.
    pub closed spec fn groups(self) -> Seq<GroupView> {
        group_views(self.entries@)
    }

    /// A document without clippings.
    pub fn new() -> (r: Self)
        ensures
            r.groups() == Seq::<GroupView>::empty(),
            r@ == Map::<BookView, Seq<ContentView>>::empty(),
    {
        let r = ClippingsMap { entries: Vec::new() };
        r
    }
}

/// Adding a clipping leaves each book with one group.
pub proof fn lemma_add_keeps_books_distinct(groups: Seq<GroupView>, clipping: ClippingView)
    requires
        distinct_books(groups),
    ensures
        distinct_books(add_to_groups(groups, clipping)),
{
}

/// Where no book has two groups, the group of a book is found at its place.
pub proof fn lemma_index_of_book(groups: Seq<GroupView>, i: int)
    requires
        distinct_books(groups),
        0 <= i < groups.len(),
    ensures
        has_book(groups, groups[i].book),
        index_of_book(groups, groups[i].book) == i,
{
}

/// Adding a clipping changes the mapping at its book alone: the clipping
/// goes behind the clippings that the book had, or is its first.
pub proof fn lemma_add_as_map(groups: Seq<GroupView>, clipping: ClippingView)
    requires
        distinct_books(groups),
    ensures
        as_map(add_to_groups(groups, clipping)) == as_map(groups).insert(
            clipping.book,
            if as_map(groups).contains_key(clipping.book) {
                as_map(groups)[clipping.book].push(clipping.content)
            } else {
                seq![clipping.content]
            },
        ),
{
    let after = add_to_groups(groups, clipping);
    let wanted = as_map(groups).insert(
        clipping.book,
        if as_map(groups).contains_key(clipping.book) {
            as_map(groups)[clipping.book].push(clipping.content)
        } else {
            seq![clipping.content]
        },
    );
    lemma_add_keeps_books_distinct(groups, clipping);
    assert forall|book: BookView| #[trigger]
        as_map(after).contains_key(book) == wanted.contains_key(book) by {
        if has_book(after, book) {
            let i = index_of_book(after, book);
        }
        if has_book(groups, book) {
            let i = index_of_book(groups, book);
        }
        if book == clipping.book {
            if has_book(groups, book) {
                assert(after[index_of_book(groups, book)].book == book);
            } else {
                assert(after[groups.len() as int].book == book);
            }
        }
    }
    assert forall|book: BookView| #[trigger] as_map(after).contains_key(book) implies as_map(
        after,
    )[book] == wanted[book] by {
        let i = index_of_book(after, book);
        if i < groups.len() {
            lemma_index_of_book(groups, i);
        }
    }
}

/// The clippings of `book` among `clippings`, in their order.
pub open spec fn clippings_of(clippings: Seq<ClippingView>, book: BookView) -> Seq<ContentView>
    decreases clippings.len(),
{
    if clippings.len() == 0 {
        Seq::empty()
    } else {
        let earlier = clippings_of(clippings.drop_last(), book);
        if clippings.last().book == book {
            earlier.push(clippings.last().content)
        } else {
            earlier
        }
    }
}

/// However the books of a run of clippings take turns, no book gets two
/// groups.
pub proof fn lemma_collect_distinct(clippings: Seq<ClippingView>)
    ensures
        distinct_books(collect(clippings)),
    decreases clippings.len(),
{
    if clippings.len() > 0 {
        lemma_collect_distinct(clippings.drop_last());
        lemma_add_keeps_books_distinct(collect(clippings.drop_last()), clippings.last());
    }
}

/// Grouping loses no clipping and changes no order within a book: a book has
/// a group where it has a clipping, and the group holds the clippings of the
/// book, all of them, in the order in which they were given.
pub proof fn lemma_collect_by_book(clippings: Seq<ClippingView>, book: BookView)
    ensures
        as_map(collect(clippings)).contains_key(book) <==> clippings_of(clippings, book).len() > 0,
        as_map(collect(clippings)).contains_key(book) ==> as_map(collect(clippings))[book]
            == clippings_of(clippings, book),
    decreases clippings.len(),
{
    if clippings.len() > 0 {
        let earlier = clippings.drop_last();
        lemma_collect_by_book(earlier, book);
        lemma_collect_distinct(earlier);
        lemma_add_as_map(collect(earlier), clippings.last());
        if clippings.last().book == book && !as_map(collect(earlier)).contains_key(book) {
            assert(Seq::<ContentView>::empty().push(clippings.last().content)
                =~= seq![clippings.last().content]);
        }
    }
}

/// Adds one clipping to the groups of a document.
fn add_to_entries(entries: &mut Vec<BookClippings>, clipping: Clipping)
    requires
        distinct_books(group_views(old(entries)@)),
    ensures
        group_views(final(entries)@) == add_to_groups(group_views(old(entries)@), clipping@),
        distinct_books(group_views(final(entries)@)),
{
    let ghost before = group_views(entries@);
    proof {
        lemma_add_keeps_books_distinct(before, clipping@);
    }
    let ghost added = clipping@;
    let Clipping { book, content } = clipping;
    let mut i: usize = 0;
    while i < entries.len()
        invariant
            i <= entries.len(),
            group_views(entries@) == before,
            entries@ == old(entries)@,
            distinct_books(before),
            added == clipping@,
            added.book == book@,
            added.content == content@,
            forall|j: int| 0 <= j < i ==> (#[trigger] before[j]).book != book@,
        decreases entries.len() - i,
    {
        if entries[i].book == book {
            let ghost found = entries@;
            proof {
                assert(before[i as int] == found[i as int]@);
            }
            entries[i].clippings.push(content);
            proof {
                let after = add_to_groups(before, added);
                assert(content_views(entries@[i as int].clippings@) =~= content_views(
                    found[i as int].clippings@,
                ).push(content@));
                assert(group_views(entries@) =~= after);
            }
            return ;
        }
        i += 1;
    }
    let mut clippings: Vec<ClippingContent> = Vec::new();
    clippings.push(content);
    entries.push(BookClippings { book, clippings });
    proof {
        let after = add_to_groups(before, added);
        assert(content_views(seq![content]) =~= seq![content@]);
        assert(group_views(entries@) =~= after);
    }
}

impl ClippingsMap {
    /// Adds one clipping: to the end of the clippings of its book, or, where
    /// the document does not have its book yet, as the first clipping of a
    /// new group at the end.
    pub fn add(&mut self, clipping: Clipping)
        ensures
            final(self).groups() == add_to_groups(old(self).groups(), clipping@),
            distinct_books(final(self).groups()),
            final(self)@ == old(self)@.insert(
                clipping@.book,
                if old(self)@.contains_key(clipping@.book) {
                    old(self)@[clipping@.book].push(clipping@.content)
                } else {
                    seq![clipping@.content]
                },
            ),
    {
        proof {
            use_type_invariant(&*self);
            lemma_add_as_map(self.groups(), clipping@);
        }
        let mut entries: Vec<BookClippings> = Vec::new();
        core::mem::swap(&mut self.entries, &mut entries);
        add_to_entries(&mut entries, clipping);
        core::mem::swap(&mut self.entries, &mut entries);
    }

    /// The number of books.
    pub fn len(&self) -> (r: usize)
        ensures
            r == self.groups().len(),
    {
        self.entries.len()
    }

    /// Says whether the document has no book.
    pub fn is_empty(&self) -> (r: bool)
        ensures
            r == (self.groups().len() == 0),
    {
        self.entries.len() == 0
    }

    /// The clippings of `book`, in the order in which they were added.
    pub fn get(&self, book: &Book) -> (r: Option<&Vec<ClippingContent>>)
        ensures
            match r {
                Some(clippings) => self@.contains_key(book@) && self@[book@] == content_views(
                    clippings@,
                ),
                None => !self@.contains_key(book@),
            },
    {
        proof {
            use_type_invariant(self);
        }
        let mut i: usize = 0;
        while i < self.entries.len()
            invariant
                i <= self.entries.len(),
                distinct_books(group_views(self.entries@)),
                forall|j: int| 0 <= j < i ==> (#[trigger] group_views(self.entries@)[j]).book != book@,
            decreases self.entries.len() - i,
        {
            if self.entries[i].book == *book {
                proof {
                    lemma_index_of_book(group_views(self.entries@), i as int);
                }
                return Some(&self.entries[i].clippings);
            }
            i += 1;
        }
        None
    }

    /// The groups of the document as a list.
    pub closed spec fn spec_into_list(self) -> ClippingsList {
        self.entries
    }

    /// The list holds the groups of the document.
    pub proof fn lemma_list_groups(self)
        ensures
            group_views(self.spec_into_list()@) == self.groups(),
    {
    }

    /// The groups of the document as a list, each book once, in the order
    /// in which the books first appeared.
    pub fn into_list(self) -> (r: ClippingsList)
        ensures
            r == self.spec_into_list(),
            group_views(r@) == self.groups(),
            distinct_books(group_views(r@)),
    {
        proof {
            use_type_invariant(&self);
        }
        self.entries
    }
}

impl Clone for ClippingsMap {
    fn clone(&self) -> (r: Self)
        ensures
            r.groups() == self.groups(),
    {
        proof {
            use_type_invariant(self);
        }
        let mut entries: Vec<BookClippings> = Vec::new();
        let mut i: usize = 0;
        while i < self.entries.len()
            invariant
                i <= self.entries.len(),
                entries@.len() == i,
                group_views(entries@) == group_views(self.entries@).take(i as int),
            decreases self.entries.len() - i,
        {
            entries.push(self.entries[i].clone());
            i += 1;
        }
        ClippingsMap { entries }
    }
}

impl Default for ClippingsMap {
    fn default() -> (r: Self)
        ensures
            r.groups() == Seq::<GroupView>::empty(),
    {
        ClippingsMap::new()
    }
}

impl From<ClippingsMap> for ClippingsList {
    fn from(document: ClippingsMap) -> (r: Self) {
        document.into_list()
    }
}

impl FromSpecImpl<ClippingsMap> for ClippingsList {
    open spec fn obeys_from_spec() -> bool {
        true
    }

    open spec fn from_spec(document: ClippingsMap) -> Self {
        document.spec_into_list()
    }
}

impl View for ClippingsMap {
    type V = Map<BookView, Seq<ContentView>>;

    open spec fn view(&self) -> Map<BookView, Seq<ContentView>> {
        as_map(self.groups())
    }
}

} // verus!
