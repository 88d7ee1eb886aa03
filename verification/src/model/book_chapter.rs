use crate::util::chars::opt_text;
use vstd::prelude::*;

verus! {

/// A chapter of a table of contents.
#[derive(Debug, Clone, Default)]
pub struct BookChapter {
    pub title: String,
    pub url: String,
    pub index: i32,
    pub tag: Option<String>,
    pub is_vip: bool,
    pub is_pay: bool,
    pub is_volume: bool,
    /// The chapter's variables, as JSON; the book's are kept apart.
    pub variable: Option<String>,
}

pub struct ChapterV {
    pub title: Seq<char>,
    pub url: Seq<char>,
    pub index: i32,
    pub tag: Option<Seq<char>>,
    pub is_vip: bool,
    pub is_pay: bool,
    pub is_volume: bool,
    pub variable: Option<Seq<char>>,
}

impl BookChapter {
    pub open spec fn model(self) -> ChapterV {
        ChapterV {
            title: self.title@,
            url: self.url@,
            index: self.index,
            tag: opt_text(self.tag),
            is_vip: self.is_vip,
            is_pay: self.is_pay,
            is_volume: self.is_volume,
            variable: opt_text(self.variable),
        }
    }
}

pub open spec fn chapter_models(v: Seq<BookChapter>) -> Seq<ChapterV> {
    Seq::new(v.len(), |i: int| v[i].model())
}

} // verus!
