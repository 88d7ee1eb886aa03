use vstd::prelude::*;

verus! {

/// How the results of a search or of an explore page are read.
#[derive(Debug, Clone, Default)]
pub struct SearchRule {
    pub book_list: Option<String>,
    pub name: Option<String>,
    pub author: Option<String>,
    pub book_url: Option<String>,
    pub cover_url: Option<String>,
    pub intro: Option<String>,
    pub kind: Option<String>,
    pub last_chapter: Option<String>,
    pub update_time: Option<String>,
    pub word_count: Option<String>,
}

/// How the page of a book is read.
#[derive(Debug, Clone, Default)]
pub struct BookInfoRule {
    pub init: Option<String>,
    pub name: Option<String>,
    pub author: Option<String>,
    pub intro: Option<String>,
    pub kind: Option<String>,
    pub last_chapter: Option<String>,
    pub update_time: Option<String>,
    pub cover_url: Option<String>,
    pub word_count: Option<String>,
    pub toc_url: Option<String>,
    pub can_re_name: Option<String>,
    pub download_urls: Option<String>,
}

/// How a table of contents is read.
#[derive(Debug, Clone, Default)]
pub struct TocRule {
    pub init: Option<String>,
    pub chapter_list: Option<String>,
    pub chapter_name: Option<String>,
    pub chapter_url: Option<String>,
    pub update_time: Option<String>,
    pub is_volume: Option<String>,
    pub is_vip: Option<String>,
    pub is_pay: Option<String>,
    pub next_toc_url: Option<String>,
    pub pre_update_js: Option<String>,
    pub format_js: Option<String>,
}

/// How the text of a chapter is read.
#[derive(Debug, Clone, Default)]
pub struct ContentRule {
    pub content: Option<String>,
    pub next_content_url: Option<String>,
    pub source_regex: Option<String>,
    pub web_js: Option<String>,
    pub replace_regex: Option<String>,
}

} // verus!
