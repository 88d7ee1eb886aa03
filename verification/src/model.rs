//! Books, chapters, search results and the sources that they come from.

pub mod book;
pub mod book_chapter;
pub mod book_source;
pub mod replace_rule;
pub mod rule;
pub mod search;
