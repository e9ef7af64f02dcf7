//! One parsed record: what was clipped, and from which book.

use crate::book::{Book, BookView};
use crate::location::Location;
use vstd::prelude::*;

verus! {

/// A passage that the reader marked.
#[derive(Debug, PartialEq, Eq)]
pub struct ClippingHighlight {
    pub location: Location,
    pub text: String,
}

impl Clone for ClippingHighlight {
    fn clone(&self) -> (r: Self)
        ensures
            r == *self,
    {
        ClippingHighlight { location: self.location, text: self.text.clone() }
    }
}

/// A note that the reader wrote.
#[derive(Debug, PartialEq, Eq)]
pub struct ClippingNote {
    pub location: Location,
    pub text: String,
}

impl Clone for ClippingNote {
    fn clone(&self) -> (r: Self)
        ensures
            r == *self,
    {
        ClippingNote { location: self.location, text: self.text.clone() }
    }
}

/// A passage clipped from an article.
#[derive(Debug, PartialEq, Eq)]
pub struct ClippingArticleClip {
    pub location: Location,
    pub text: String,
}

impl Clone for ClippingArticleClip {
    fn clone(&self) -> (r: Self)
        ensures
            r == *self,
    {
        ClippingArticleClip { location: self.location, text: self.text.clone() }
    }
}

/// A place that the reader marked. It has no text.
#[derive(Clone, Copy, Debug, PartialEq, Eq)]
pub struct ClippingBookmark {
    pub location: Location,
}

/// What a record holds, by the kind of the record.
#[derive(Debug, PartialEq, Eq)]
pub enum ClippingContent {
    Highlight(ClippingHighlight),
    Note(ClippingNote),
    Bookmark(ClippingBookmark),
    ArticleClip(ClippingArticleClip),
}

impl Clone for ClippingContent {
    fn clone(&self) -> (r: Self)
        ensures
            r == *self,
    {
        match self {
            ClippingContent::Highlight(h) => ClippingContent::Highlight(h.clone()),
            ClippingContent::Note(n) => ClippingContent::Note(n.clone()),
            ClippingContent::Bookmark(b) => ClippingContent::Bookmark(*b),
            ClippingContent::ArticleClip(a) => ClippingContent::ArticleClip(a.clone()),
        }
    }
}

/// The content of a record, with its text as a sequence of characters.
pub enum ContentView {
    Highlight { location: Location, text: Seq<char> },
    Note { location: Location, text: Seq<char> },
    Bookmark { location: Location },
    ArticleClip { location: Location, text: Seq<char> },
}

impl View for ClippingContent {
    type V = ContentView;

    open spec fn view(&self) -> ContentView {
        match self {
            ClippingContent::Highlight(h) => ContentView::Highlight {
                location: h.location,
                text: h.text@,
            },
            ClippingContent::Note(n) => ContentView::Note { location: n.location, text: n.text@ },
            ClippingContent::Bookmark(b) => ContentView::Bookmark { location: b.location },
            ClippingContent::ArticleClip(a) => ContentView::ArticleClip {
                location: a.location,
                text: a.text@,
            },
        }
    }
}

/// One record: a book and what was clipped from it.
#[derive(Debug, PartialEq, Eq)]
pub struct Clipping {
    pub book: Book,
    pub content: ClippingContent,
}

impl Clone for Clipping {
    fn clone(&self) -> (r: Self)
        ensures
            r == *self,
    {
        Clipping { book: self.book.clone(), content: self.content.clone() }
    }
}

/// A record as a pair of views.
pub struct ClippingView {
    pub book: BookView,
    pub content: ContentView,
}

impl View for Clipping {
    type V = ClippingView;

    open spec fn view(&self) -> ClippingView {
        ClippingView { book: self.book@, content: self.content@ }
    }
}

} // verus!
