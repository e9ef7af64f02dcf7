//! The book that a clipping was taken from.

use vstd::prelude::*;
use vstd::std_specs::cmp::PartialEqSpecImpl;

verus! {

/// A book, known by its title and, where the export names one, its author.
/// Two books with the same title and the same author are the same book.
#[derive(Debug, Eq, Hash)]
pub struct Book {
    pub title: String,
    pub author: Option<String>,
}

/// A book as a pair of texts.
pub struct BookView {
    pub title: Seq<char>,
    pub author: Option<Seq<char>>,
}

impl View for Book {
    type V = BookView;

    open spec fn view(&self) -> BookView {
        BookView {
            title: self.title@,
            author: match self.author {
                Some(author) => Some(author@),
                None => None,
            },
        }
    }
}

impl Clone for Book {
    fn clone(&self) -> (r: Self)
        ensures
            r == *self,
    {
        Book {
            title: self.title.clone(),
            author: match &self.author {
                Some(author) => Some(author.clone()),
                None => None,
            },
        }
    }
}

impl PartialEq for Book {
    fn eq(&self, other: &Book) -> (r: bool) {
        let same_author = match &self.author {
            Some(a) => match &other.author {
                Some(b) => *a == *b,
                None => false,
            },
            None => other.author.is_none(),
        };
        same_author && self.title == other.title
    }
}

impl PartialEqSpecImpl for Book {
    open spec fn obeys_eq_spec() -> bool {
        true
    }

    open spec fn eq_spec(&self, other: &Book) -> bool {
        self@ == other@
    }
}

} // verus!
