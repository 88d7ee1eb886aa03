use crate::util::chars::{opt_text, texts};
use vstd::prelude::*;

verus! {

/// A book in the results of a search.
#[derive(Debug, Clone, Default)]
pub struct SearchBook {
    pub name: String,
    pub author: String,
    pub book_url: String,
    pub origin: String,
    pub cover_url: Option<String>,
    pub intro: Option<String>,
    pub kind: Option<String>,
    pub last_chapter: Option<String>,
    pub update_time: Option<String>,
    pub word_count: Option<String>,
    /// The book's variables, as JSON.
    pub variable: Option<String>,
    pub book_source_urls: Option<Vec<String>>,
}

pub struct FoundBookV {
    pub name: Seq<char>,
    pub author: Seq<char>,
    pub book_url: Seq<char>,
    pub origin: Seq<char>,
    pub cover_url: Option<Seq<char>>,
    pub intro: Option<Seq<char>>,
    pub kind: Option<Seq<char>>,
    pub last_chapter: Option<Seq<char>>,
    pub update_time: Option<Seq<char>>,
    pub word_count: Option<Seq<char>>,
    pub variable: Option<Seq<char>>,
    pub book_source_urls: Option<Seq<Seq<char>>>,
}

impl SearchBook {
    pub open spec fn model(self) -> FoundBookV {
        FoundBookV {
            name: self.name@,
            author: self.author@,
            book_url: self.book_url@,
            origin: self.origin@,
            cover_url: opt_text(self.cover_url),
            intro: opt_text(self.intro),
            kind: opt_text(self.kind),
            last_chapter: opt_text(self.last_chapter),
            update_time: opt_text(self.update_time),
            word_count: opt_text(self.word_count),
            variable: opt_text(self.variable),
            book_source_urls: match self.book_source_urls {
                Some(v) => Some(texts(v@)),
                None => None,
            },
        }
    }
}

pub open spec fn found_books(v: Seq<SearchBook>) -> Seq<FoundBookV> {
    Seq::new(v.len(), |i: int| v[i].model())
}

} // verus!
