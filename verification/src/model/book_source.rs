use crate::model::rule::{BookInfoRule, ContentRule, SearchRule, TocRule};
use vstd::prelude::*;

verus! {

/// A site that books are read from, and the rules that its pages are read by.
#[derive(Debug, Clone, Default)]
pub struct BookSource {
    pub book_source_name: String,
    pub book_source_url: String,
    pub header: Option<String>,
    pub js_lib: Option<String>,
    pub search_url: Option<String>,
    pub book_url_pattern: Option<String>,
    pub login_url: Option<String>,
    pub login_ui: Option<String>,
    pub login_check_js: Option<String>,
    pub enabled_cookie_jar: Option<bool>,
    pub rule_search: Option<SearchRule>,
    pub rule_explore: Option<SearchRule>,
    pub rule_book_info: Option<BookInfoRule>,
    pub rule_toc: Option<TocRule>,
    pub rule_content: Option<ContentRule>,
}

} // verus!
