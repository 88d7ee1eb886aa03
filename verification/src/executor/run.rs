//! The operations: searching, reading a book's page, its table of contents and
//! its chapters, over as many pages as they have.

use crate::crawler::fetch::{fetched, session_client, ClientV, HttpSession};
use crate::crawler::response::{HttpResponse, HttpV};
use crate::crawler::session::{is_session, ExecuteSession, SessionV};
use crate::crawler::sessions::law_untouched_session_is_silent;
use crate::crawler::url_rule::{analyze_url, analyzed};
use crate::executor::login::{
    checked_result, execute_login, execute_login_ui, fault_for, login_answer, login_form, login_validated,
    map_fetch_error, opt_http, validate_login_response, value_result,
};
use crate::executor::pages::{apply_replace_rules, is_further_page, rules_applied, should_follow_content_page};
use crate::executor::request::{
    decoded_options, decoded_session, described_source, error_json, invalid_request, make_error, needed_text,
    optional_page, page_of, parse_request, parse_source, plain_error, read_request, read_source, required_string,
    success, success_json, AskedV, ErrorV, ExecuteError, ExecuteOptions, Request, ValidatedOptions,
};
use crate::executor::values::{
    book_value, chapters_json, chapters_value, found_list_json, found_list_value, fresh_book_json,
};
use crate::ext::json::{
    integer_text, json_integer, json_text_of, json_to_text, lemma_object_model, member_models, put, Json, JsonV,
};
use crate::model::book_chapter::{chapter_models, BookChapter, ChapterV};
use crate::model::book_source::BookSource;
use crate::model::replace_rule::{replace_models, ReplaceRule, ReplaceV};
use crate::model::search::FoundBookV;
use crate::parser::rule_engine::{
    book_context, chapter_text, content_context, content_rule, explore_rule, lib_restored, next_content_page,
    page_results, search_results, source_book, source_toc, toc_rule, with_lib, BookV, RuleEngine,
};
use crate::parser::script::{
    agrees, extends, group_log, lemma_extends_on, next_answer, session_begun, session_ended, Host, Oracle,
    ScriptEngine, Transport, World,
};
use crate::util::chars::{concat, is_empty_text, join, join_of, list_contains, opt_text, same, texts, trim, trim_of};
use vstd::prelude::*;
use vstd::string::*;

verus! {

/// What every operation of a request works with.
pub struct EnvV {
    pub source: BookSource,
    pub client: ClientV,
    pub options: ValidatedOptions,
}

/// The response to a URL rule.
#[verifier::opaque]
pub open spec fn rule_fetched(e: EnvV, rule: Seq<char>, key: Seq<char>, page: i32, w: World, o: Oracle) -> (
    Result<HttpV, ErrorV>,
    World,
) {
    let q = analyzed(None, rule, key, page, e.source.book_source_url@, e.source, w, o);
    match q.0 {
        Err(m) => (Err(plain_error("url_rule"@, m)), q.1),
        Ok(spec) => {
            let f = fetched(e.client, spec, e.options.max_response_bytes, q.1, o);
            match f.0 {
                Err(m) => (Err(fault_for(e.source, m)), f.1),
                Ok(r) => login_validated(e.source, r, f.1, o),
            }
        },
    }
}

/// What an operation works with.
pub struct Env<'a> {
    pub source: &'a BookSource,
    pub session: &'a HttpSession,
    pub options: &'a ValidatedOptions,
}

impl<'a> Env<'a> {
    pub open spec fn model(self) -> EnvV {
        EnvV { source: *self.source, client: self.session.client.model(), options: *self.options }
    }
}

pub fn fetch_rule<E: ScriptEngine + Transport>(e: &Env<'_>, rule: &str, key: &str, page: i32, host: &mut Host<E>) -> (r:
    Result<HttpResponse, ExecuteError>)
    ensures
        extends(old(host).log(), final(host).log()),
        forall|o: Oracle| #[trigger]
            agrees(final(host).log(), o) ==> rule_fetched(e.model(), rule@, key@, page, old(host).world(), o) == (
                checked_result(r),
                final(host).world(),
            ),
{
    broadcast use group_log;

    proof {
        reveal(rule_fetched);
    }
    let compiled = analyze_url(rule, key, page, e.source.book_source_url.as_str(), e.source, host);
    let ghost log1 = host.log();
    let spec = match compiled {
        Ok(s) => s,
        Err(m) => {
            return Err(make_error("url_rule", m));
        },
    };
    let response = e.session.fetch(&spec, e.options.max_response_bytes, host);
    let ghost log2 = host.log();
    proof {
        lemma_extends_on(old(host).log(), log1, log2);
        assert forall|o: Oracle| #[trigger] agrees(log2, o) implies agrees(log1, o) by {}
    }
    match response {
        Err(f) => Err(map_fetch_error(f, e.source)),
        Ok(x) => {
            let r = validate_login_response(e.source, x, host);
            proof {
                lemma_extends_on(old(host).log(), log2, host.log());
                assert forall|o: Oracle| #[trigger] agrees(host.log(), o) implies agrees(log2, o) && agrees(log1, o) by {}
            }
            r
        },
    }
}

/// A result list as the answer of a response.
pub open spec fn list_answer(data: JsonV, r: HttpV, e: EnvV) -> JsonV {
    success_json(data, 1, false, r, e.options.debug)
}

/// The rule that a source is searched by.
pub open spec fn search_rule_of(source: BookSource) -> Option<Seq<char>> {
    match source.search_url {
        Some(t) => if trim_of(t@).len() > 0 {
            Some(t@)
        } else {
            None
        },
        None => None,
    }
}

/// The books that a response to a search lists.
#[verifier::opaque]
pub open spec fn search_read(e: EnvV, r: HttpV, w: World, o: Oracle) -> (Seq<FoundBookV>, World) {
    lib_restored(search_results(e.source, r.body, r.url, with_lib(w, opt_text(e.source.js_lib)), o), w)
}

/// What a search is answered with.
pub open spec fn search_answer(e: EnvV, params: JsonV, w: World, o: Oracle) -> (Result<JsonV, ErrorV>, World) {
    match (needed_text(params, "key"@), page_of(params), search_rule_of(e.source)) {
        (Err(f), _, _) => (Err(f), w),
        (Ok(_), Err(f), _) => (Err(f), w),
        (Ok(_), Ok(_), None) => (Err(plain_error("url_rule"@, "searchUrl is required"@)), w),
        (Ok(key), Ok(page), Some(rule)) => {
            let x = rule_fetched(e, rule, key, page, w, o);
            match x.0 {
                Err(f) => (Err(f), x.1),
                Ok(r) => {
                    let b = search_read(e, r, x.1, o);
                    (Ok(list_answer(found_list_json(b.0), r, e)), b.1)
                },
            }
        },
    }
}

pub fn execute_search<E: ScriptEngine + Transport>(e: &Env<'_>, engine: &RuleEngine, params: &Json, host: &mut Host<E>) -> (r:
    Result<Json, ExecuteError>)
    ensures
        extends(old(host).log(), final(host).log()),
        forall|o: Oracle| #[trigger]
            agrees(final(host).log(), o) ==> search_answer(e.model(), params.model(), old(host).world(), o) == (
                value_result(r),
                final(host).world(),
            ),
{
    broadcast use group_log;

    let key = match required_string(params, "key") {
        Ok(t) => t,
        Err(f) => {
            return Err(f);
        },
    };
    let page = match optional_page(params) {
        Ok(n) => n,
        Err(f) => {
            return Err(f);
        },
    };
    let rule = match &e.source.search_url {
        Some(t) => {
            if is_empty_text(trim(t.as_str()).as_str()) {
                return Err(make_error("url_rule", "searchUrl is required".to_owned()));
            }
            t
        },
        None => {
            return Err(make_error("url_rule", "searchUrl is required".to_owned()));
        },
    };
    let fetched = fetch_rule(e, rule.as_str(), key.as_str(), page, host);
    let ghost log1 = host.log();
    let response = match fetched {
        Ok(x) => x,
        Err(f) => {
            return Err(f);
        },
    };
    proof {
        reveal(search_read);
    }
    let books = engine.search_books(e.source, response.body.as_str(), response.url.as_str(), host);
    proof {
        lemma_extends_on(old(host).log(), log1, host.log());
        assert forall|o: Oracle| #[trigger] agrees(host.log(), o) implies agrees(log1, o) by {}
    }
    Ok(success(found_list_value(&books), 1, false, &response, e.options))
}

/// The books that a response to exploring lists.
#[verifier::opaque]
pub open spec fn explore_read(e: EnvV, r: HttpV, w: World, o: Oracle) -> (Seq<FoundBookV>, World) {
    lib_restored(
        page_results(
            e.source,
            explore_rule(e.source),
            r.body,
            r.url,
            with_lib(w, opt_text(e.source.js_lib)),
            o,
        ),
        w,
    )
}

/// What exploring a source is answered with.
pub open spec fn explore_answer(e: EnvV, params: JsonV, w: World, o: Oracle) -> (Result<JsonV, ErrorV>, World) {
    match (needed_text(params, "url"@), page_of(params)) {
        (Err(f), _) => (Err(f), w),
        (Ok(_), Err(f)) => (Err(f), w),
        (Ok(rule), Ok(page)) => {
            let x = rule_fetched(e, rule, seq![], page, w, o);
            match x.0 {
                Err(f) => (Err(f), x.1),
                Ok(r) => {
                    let b = explore_read(e, r, x.1, o);
                    (Ok(list_answer(found_list_json(b.0), r, e)), b.1)
                },
            }
        },
    }
}

fn blank() -> (r: String)
    ensures
        r@ == Seq::<char>::empty(),
{
    let r = String::new();
    assert(r@ =~= Seq::<char>::empty());
    r
}

pub fn execute_explore<E: ScriptEngine + Transport>(e: &Env<'_>, engine: &RuleEngine, params: &Json, host: &mut Host<E>) -> (
r: Result<Json, ExecuteError>)
    ensures
        extends(old(host).log(), final(host).log()),
        forall|o: Oracle| #[trigger]
            agrees(final(host).log(), o) ==> explore_answer(e.model(), params.model(), old(host).world(), o) == (
                value_result(r),
                final(host).world(),
            ),
{
    broadcast use group_log;

    let rule = match required_string(params, "url") {
        Ok(t) => t,
        Err(f) => {
            return Err(f);
        },
    };
    let page = match optional_page(params) {
        Ok(n) => n,
        Err(f) => {
            return Err(f);
        },
    };
    let none = blank();
    let fetched = fetch_rule(e, rule.as_str(), none.as_str(), page, host);
    let ghost log1 = host.log();
    let response = match fetched {
        Ok(x) => x,
        Err(f) => {
            return Err(f);
        },
    };
    proof {
        reveal(explore_read);
    }
    let books = engine.explore_books(e.source, response.body.as_str(), response.url.as_str(), host);
    proof {
        lemma_extends_on(old(host).log(), log1, host.log());
        assert forall|o: Oracle| #[trigger] agrees(host.log(), o) implies agrees(log1, o) by {}
    }
    Ok(success(found_list_value(&books), 1, false, &response, e.options))
}

/// The book that a response describes.
#[verifier::opaque]
pub open spec fn book_read(e: EnvV, r: HttpV, url: Seq<char>, w: World, o: Oracle) -> (BookV, World) {
    lib_restored(
        source_book(e.source, r.body, r.url, url, None, None, with_lib(w, opt_text(e.source.js_lib)), o),
        w,
    )
}

/// What reading a book's page is answered with.
pub open spec fn info_answer(e: EnvV, params: JsonV, w: World, o: Oracle) -> (Result<JsonV, ErrorV>, World) {
    match needed_text(params, "url"@) {
        Err(f) => (Err(f), w),
        Ok(url) => {
            let x = rule_fetched(e, url, seq![], 1, w, o);
            match x.0 {
                Err(f) => (Err(f), x.1),
                Ok(r) => {
                    let b = book_read(e, r, url, x.1, o);
                    (Ok(list_answer(fresh_book_json(b.0), r, e)), b.1)
                },
            }
        },
    }
}

pub fn execute_info<E: ScriptEngine + Transport>(e: &Env<'_>, engine: &RuleEngine, params: &Json, host: &mut Host<E>) -> (r:
    Result<Json, ExecuteError>)
    ensures
        extends(old(host).log(), final(host).log()),
        forall|o: Oracle| #[trigger]
            agrees(final(host).log(), o) ==> info_answer(e.model(), params.model(), old(host).world(), o) == (
                value_result(r),
                final(host).world(),
            ),
{
    broadcast use group_log;

    let url = match required_string(params, "url") {
        Ok(t) => t,
        Err(f) => {
            return Err(f);
        },
    };
    let none = blank();
    let fetched = fetch_rule(e, url.as_str(), none.as_str(), 1, host);
    let ghost log1 = host.log();
    let response = match fetched {
        Ok(x) => x,
        Err(f) => {
            return Err(f);
        },
    };
    proof {
        reveal(book_read);
    }
    let book = engine.book_info(e.source, response.body.as_str(), response.url.as_str(), url.as_str(), host);
    proof {
        lemma_extends_on(old(host).log(), log1, host.log());
        assert forall|o: Oracle| #[trigger] agrees(host.log(), o) implies agrees(log1, o) by {}
    }
    Ok(success(book_value(&book), 1, false, &response, e.options))
}

/// Whether a chapter of that address is in the list.
pub open spec fn has_chapter(chapters: Seq<ChapterV>, url: Seq<char>) -> bool {
    exists|i: int| 0 <= i < chapters.len() && (#[trigger] chapters[i]).url == url
}

/// Chapters with the first `n` of a page after them, those that are not there
/// yet, each numbered by its place.
pub open spec fn with_chapters(chapters: Seq<ChapterV>, page: Seq<ChapterV>, n: int) -> Seq<ChapterV>
    decreases n,
{
    if n <= 0 {
        chapters
    } else {
        let before = with_chapters(chapters, page, n - 1);
        if has_chapter(before, page[n - 1].url) {
            before
        } else {
            before.push(ChapterV { index: before.len() as i32, ..page[n - 1] })
        }
    }
}

/// The pages to read after the first `n` that a page names: those that were not
/// read yet.
pub open spec fn with_pages(pending: Seq<Seq<char>>, next: Seq<Seq<char>>, visited: Seq<Seq<char>>, n: int) -> Seq<
    Seq<char>,
>
    decreases n,
{
    if n <= 0 {
        pending
    } else {
        let before = with_pages(pending, next, visited, n - 1);
        if trim_of(next[n - 1]).len() > 0 && !visited.contains(next[n - 1]) {
            before.push(next[n - 1])
        } else {
            before
        }
    }
}

/// What was read of a table of contents.
pub struct TocV {
    pub visited: Seq<Seq<char>>,
    pub chapters: Seq<ChapterV>,
    pub last: Option<HttpV>,
    pub truncated: bool,
}

/// The chapters and the further pages of one page.
pub open spec fn toc_page(e: EnvV, r: HttpV, w: World, o: Oracle) -> ((Seq<ChapterV>, Seq<Seq<char>>), World) {
    lib_restored(
        source_toc(
            toc_rule(e.source),
            r.body,
            r.url,
            book_context(None, None),
            with_lib(w, opt_text(e.source.js_lib)),
            o,
        ),
        w,
    )
}

/// A page of a table of contents: its response, chapters and further pages.
pub struct TocPageV {
    pub response: HttpV,
    pub chapters: Seq<ChapterV>,
    pub next: Seq<Seq<char>>,
}

/// What comes of fetching and reading a page of a table of contents.
#[verifier::opaque]
pub open spec fn toc_read(e: EnvV, url: Seq<char>, w: World, o: Oracle) -> (Result<TocPageV, ErrorV>, World) {
    let x = rule_fetched(e, url, seq![], 1, w, o);
    match x.0 {
        Err(f) => (Err(f), x.1),
        Ok(r) => {
            let (page, after_page) = toc_page(e, r, x.1, o);
            let (chapters, next) = page;
            (Ok(TocPageV { response: r, chapters, next }), after_page)
        },
    }
}

/// What is read of a table of contents from a state on: each page once, in the
/// order in which they are named, and no more than the request allows.
pub open spec fn toc_from(
    e: EnvV,
    pending: Seq<Seq<char>>,
    visited: Seq<Seq<char>>,
    chapters: Seq<ChapterV>,
    last: Option<HttpV>,
    w: World,
    o: Oracle,
) -> (Result<TocV, ErrorV>, World)
    decreases e.options.max_pages - visited.len(), pending.len(),
{
    if pending.len() == 0 {
        (Ok(TocV { visited, chapters, last, truncated: false }), w)
    } else {
        let url = pending[0];
        let rest = pending.skip(1);
        if visited.contains(url) {
            toc_from(e, rest, visited, chapters, last, w, o)
        } else if visited.len() >= e.options.max_pages {
            (Ok(TocV { visited, chapters, last, truncated: true }), w)
        } else {
            let x = toc_read(e, url, w, o);
            match x.0 {
                Err(f) => (Err(f), x.1),
                Ok(p) => {
                    let seen = visited.push(url);
                    toc_from(
                        e,
                        with_pages(rest, p.next, seen, p.next.len() as int),
                        seen,
                        with_chapters(chapters, p.chapters, p.chapters.len() as int),
                        Some(p.response),
                        x.1,
                        o,
                    )
                },
            }
        }
    }
}

pub struct TocPage {
    pub response: HttpResponse,
    pub chapters: Vec<BookChapter>,
    pub next: Vec<String>,
}

impl TocPage {
    pub open spec fn model(self) -> TocPageV {
        TocPageV {
            response: self.response.model(),
            chapters: chapter_models(self.chapters@),
            next: texts(self.next@),
        }
    }
}

pub open spec fn toc_page_result(r: Result<TocPage, ExecuteError>) -> Result<TocPageV, ErrorV> {
    match r {
        Ok(p) => Ok(p.model()),
        Err(f) => Err(f.model()),
    }
}

pub fn read_toc_page<E: ScriptEngine + Transport>(e: &Env<'_>, engine: &RuleEngine, url: &str, host: &mut Host<E>) -> (r:
    Result<TocPage, ExecuteError>)
    ensures
        extends(old(host).log(), final(host).log()),
        forall|o: Oracle| #[trigger]
            agrees(final(host).log(), o) ==> toc_read(e.model(), url@, old(host).world(), o) == (
                toc_page_result(r),
                final(host).world(),
            ),
{
    broadcast use group_log;

    proof {
        reveal(toc_read);
    }
    let none = blank();
    let fetched = fetch_rule(e, url, none.as_str(), 1, host);
    let ghost log1 = host.log();
    let response = match fetched {
        Ok(x) => x,
        Err(f) => {
            return Err(f);
        },
    };
    let (chapters, next) = engine.chapter_list(e.source, response.body.as_str(), response.url.as_str(), host);
    proof {
        lemma_extends_on(old(host).log(), log1, host.log());
        assert forall|o: Oracle| #[trigger] agrees(host.log(), o) implies agrees(log1, o) by {}
    }
    Ok(TocPage { response, chapters, next })
}

pub fn add_chapters(chapters: &mut Vec<BookChapter>, page: Vec<BookChapter>)
    ensures
        chapter_models(final(chapters)@) == with_chapters(
            chapter_models(old(chapters)@),
            chapter_models(page@),
            page.len() as int,
        ),
{
    let ghost before = chapter_models(chapters@);
    let ghost all = chapter_models(page@);
    let mut k: usize = 0;
    while k < page.len()
        invariant
            k <= page.len(),
            all == chapter_models(page@),
            chapter_models(chapters@) == with_chapters(before, all, k as int),
        decreases page.len() - k,
    {
        assert(all[k as int] == page@[k as int].model());
        let ghost now = chapter_models(chapters@);
        if !contains_chapter(chapters, page[k].url.as_str()) {
            let c = numbered_chapter(&page[k], chapters.len());
            let ghost x = c.model();
            assert(now.len() == chapters.len());
            chapters.push(c);
            assert(chapter_models(chapters@) =~= now.push(x));
        }
        k = k + 1;
    }
}

pub fn contains_chapter(chapters: &Vec<BookChapter>, url: &str) -> (r: bool)
    ensures
        r == has_chapter(chapter_models(chapters@), url@),
{
    let ghost all = chapter_models(chapters@);
    let mut k: usize = 0;
    while k < chapters.len()
        invariant
            k <= chapters.len(),
            all == chapter_models(chapters@),
            forall|i: int| 0 <= i < k ==> (#[trigger] all[i]).url != url@,
        decreases chapters.len() - k,
    {
        assert(all[k as int] == chapters@[k as int].model());
        if same(chapters[k].url.as_str(), url) {
            return true;
        }
        k = k + 1;
    }
    false
}

#[verifier::truncate]
pub fn numbered_chapter(c: &BookChapter, number: usize) -> (r: BookChapter)
    ensures
        r.model() == (ChapterV { index: number as i32, ..c.model() }),
{
    BookChapter {
        title: c.title.clone(),
        url: c.url.clone(),
        index: number as i32,
        tag: copy_opt(&c.tag),
        is_vip: c.is_vip,
        is_pay: c.is_pay,
        is_volume: c.is_volume,
        variable: copy_opt(&c.variable),
    }
}

fn copy_opt(o: &Option<String>) -> (r: Option<String>)
    ensures
        opt_text(r) == opt_text(*o),
{
    match o {
        Some(s) => Some(s.clone()),
        None => None,
    }
}

pub fn add_pages(pending: &mut Vec<String>, next: &Vec<String>, visited: &Vec<String>)
    ensures
        texts(final(pending)@) == with_pages(
            texts(old(pending)@),
            texts(next@),
            texts(visited@),
            next.len() as int,
        ),
{
    let ghost before = texts(pending@);
    let ghost all = texts(next@);
    let mut k: usize = 0;
    while k < next.len()
        invariant
            k <= next.len(),
            all == texts(next@),
            texts(pending@) == with_pages(before, all, texts(visited@), k as int),
        decreases next.len() - k,
    {
        assert(all[k as int] == next@[k as int]@);
        let ghost now = texts(pending@);
        if !is_empty_text(trim(next[k].as_str()).as_str()) && !list_contains(visited, next[k].as_str()) {
            pending.push(next[k].clone());
            assert(texts(pending@) =~= now.push(all[k as int]));
        }
        k = k + 1;
    }
}

pub struct Toc {
    pub visited: Vec<String>,
    pub chapters: Vec<BookChapter>,
    pub last: Option<HttpResponse>,
    pub truncated: bool,
}

impl Toc {
    pub open spec fn model(self) -> TocV {
        TocV {
            visited: texts(self.visited@),
            chapters: chapter_models(self.chapters@),
            last: opt_http(self.last),
            truncated: self.truncated,
        }
    }
}

pub open spec fn toc_result(r: Result<Toc, ExecuteError>) -> Result<TocV, ErrorV> {
    match r {
        Ok(t) => Ok(t.model()),
        Err(f) => Err(f.model()),
    }
}

/// Reads a table of contents, page by page.
pub fn collect_toc<E: ScriptEngine + Transport>(e: &Env<'_>, engine: &RuleEngine, toc_url: String, host: &mut Host<E>) -> (
r: Result<Toc, ExecuteError>)
    ensures
        extends(old(host).log(), final(host).log()),
        forall|o: Oracle| #[trigger]
            agrees(final(host).log(), o) ==> toc_from(
                e.model(),
                seq![toc_url@],
                seq![],
                seq![],
                None,
                old(host).world(),
                o,
            ) == (toc_result(r), final(host).world()),
{
    broadcast use group_log;

    let ghost env = e.model();
    let ghost first = toc_url@;
    let ghost w0 = host.world();
    let max = e.options.max_pages;
    let mut pending: Vec<String> = Vec::new();
    pending.push(toc_url);
    assert(texts(pending@) =~= seq![first]);
    let mut visited: Vec<String> = Vec::new();
    assert(texts(visited@) =~= seq![]);
    let mut chapters: Vec<BookChapter> = Vec::new();
    assert(chapter_models(chapters@) =~= seq![]);
    let mut last: Option<HttpResponse> = None;
    while pending.len() > 0
        invariant
            env == e.model(),
            first == toc_url@,
            max == env.options.max_pages,
            w0 == old(host).world(),
            visited.len() <= max,
            extends(old(host).log(), host.log()),
            forall|o: Oracle| #[trigger]
                agrees(host.log(), o) ==> toc_from(env, seq![first], seq![], seq![], None, w0, o) == toc_from(
                    env,
                    texts(pending@),
                    texts(visited@),
                    chapter_models(chapters@),
                    opt_http(last),
                    host.world(),
                    o,
                ),
        decreases max - visited.len(), pending.len(),
    {
        let ghost log0 = host.log();
        let ghost w = host.world();
        let ghost p0 = texts(pending@);
        let ghost v0 = texts(visited@);
        let ghost c0 = chapter_models(chapters@);
        let ghost l0 = opt_http(last);
        let url = pending.remove(0);
        assert(p0[0] == url@);
        assert(texts(pending@) =~= p0.skip(1));
        if !list_contains(&visited, url.as_str()) {
            assert(v0.len() == visited.len());
            if visited.len() >= max {
                return Ok(Toc { visited, chapters, last, truncated: true });
            }
            let read = read_toc_page(e, engine, url.as_str(), host);
            let ghost log1 = host.log();
            proof {
                lemma_extends_on(old(host).log(), log0, log1);
                assert forall|o: Oracle| #[trigger] agrees(log1, o) implies agrees(log0, o) by {}
            }
            let page = match read {
                Ok(p) => p,
                Err(f) => {
                    return Err(f);
                },
            };
            let ghost m = page.model();
            assert(m.chapters.len() == page.chapters.len() && m.next.len() == page.next.len());
            let ghost u = url@;
            visited.push(url);
            assert(texts(visited@) =~= v0.push(u));
            add_chapters(&mut chapters, page.chapters);
            add_pages(&mut pending, &page.next, &visited);
            last = Some(page.response);
        }
    }
    assert(texts(pending@).len() == 0);
    Ok(Toc { visited, chapters, last, truncated: false })
}

/// The address of a table of contents: the one that the book's page names, else
/// the book's.
pub open spec fn toc_address(b: BookV, url: Seq<char>) -> Seq<char> {
    match b.toc_url {
        Some(t) => if trim_of(t).len() > 0 {
            t
        } else {
            url
        },
        None => url,
    }
}

/// A table of contents in an answer.
pub open spec fn toc_json(t: TocV) -> JsonV {
    JsonV::Object(
        seq![
            ("chapters"@, chapters_json(t.chapters)),
            ("pages"@, JsonV::Number(integer_text(t.visited.len() as int))),
            ("truncated"@, JsonV::Bool(t.truncated)),
        ],
    )
}

/// The answer to what was read of a table of contents.
pub open spec fn toc_told(t: TocV, e: EnvV) -> Result<JsonV, ErrorV> {
    match t.last {
        None => Err(plain_error("url_rule"@, "toc URL produced no request"@)),
        Some(r) => Ok(success_json(toc_json(t), t.visited.len() as int, t.truncated, r, e.options.debug)),
    }
}

/// What reading a table of contents is answered with.
pub open spec fn toc_answer(e: EnvV, params: JsonV, w: World, o: Oracle) -> (Result<JsonV, ErrorV>, World) {
    match needed_text(params, "url"@) {
        Err(f) => (Err(f), w),
        Ok(url) => {
            let x = rule_fetched(e, url, seq![], 1, w, o);
            match x.0 {
                Err(f) => (Err(f), x.1),
                Ok(r) => {
                    let b = book_read(e, r, url, x.1, o);
                    let t = toc_from(e, seq![toc_address(b.0, url)], seq![], seq![], None, b.1, o);
                    (
                        match t.0 {
                            Err(f) => Err(f),
                            Ok(v) => toc_told(v, e),
                        },
                        t.1,
                    )
                },
            }
        },
    }
}

pub fn tell_toc(toc: Toc, e: &Env<'_>) -> (r: Result<Json, ExecuteError>)
    ensures
        value_result(r) == toc_told(toc.model(), e.model()),
{
    broadcast use lemma_object_model;

    let ghost t = toc.model();
    let response = match &toc.last {
        Some(x) => x,
        None => {
            return Err(make_error("url_rule", "toc URL produced no request".to_owned()));
        },
    };
    assert(t.visited.len() == toc.visited.len());
    let mut m: Vec<(String, Json)> = Vec::new();
    assert(member_models(m@) =~= seq![]);
    put(&mut m, "chapters", chapters_value(&toc.chapters));
    put(&mut m, "pages", Json::Number(json_integer(toc.visited.len() as i128)));
    put(&mut m, "truncated", Json::Bool(toc.truncated));
    assert(member_models(m@) =~= toc_json(t)->Object_0);
    Ok(success(Json::Object(m), toc.visited.len(), toc.truncated, response, e.options))
}

pub fn execute_toc<E: ScriptEngine + Transport>(e: &Env<'_>, engine: &RuleEngine, params: &Json, host: &mut Host<E>) -> (r:
    Result<Json, ExecuteError>)
    ensures
        extends(old(host).log(), final(host).log()),
        forall|o: Oracle| #[trigger]
            agrees(final(host).log(), o) ==> toc_answer(e.model(), params.model(), old(host).world(), o) == (
                value_result(r),
                final(host).world(),
            ),
{
    broadcast use group_log;

    let url = match required_string(params, "url") {
        Ok(t) => t,
        Err(f) => {
            return Err(f);
        },
    };
    let none = blank();
    let fetched = fetch_rule(e, url.as_str(), none.as_str(), 1, host);
    let ghost log1 = host.log();
    let response = match fetched {
        Ok(x) => x,
        Err(f) => {
            return Err(f);
        },
    };
    proof {
        reveal(book_read);
    }
    let book = engine.book_info(e.source, response.body.as_str(), response.url.as_str(), url.as_str(), host);
    let ghost log2 = host.log();
    proof {
        lemma_extends_on(old(host).log(), log1, log2);
        assert forall|o: Oracle| #[trigger] agrees(log2, o) implies agrees(log1, o) by {}
    }
    let ghost b = book.model();
    let ghost asked = url@;
    let toc_url = match book.toc_url {
        Some(t) => if is_empty_text(trim(t.as_str()).as_str()) {
            url
        } else {
            t
        },
        None => url,
    };
    assert(toc_url@ == toc_address(b, asked));
    let collected = collect_toc(e, engine, toc_url, host);
    proof {
        lemma_extends_on(old(host).log(), log2, host.log());
        assert forall|o: Oracle| #[trigger] agrees(host.log(), o) implies agrees(log2, o) && agrees(log1, o) by {}
    }
    match collected {
        Ok(t) => tell_toc(t, e),
        Err(f) => Err(f),
    }
}

/// What was read of a chapter.
pub struct ContentV {
    pub visited: Seq<Seq<char>>,
    pub fragments: Seq<Seq<char>>,
    pub last: Option<HttpV>,
    pub truncated: bool,
}

/// The text of one page of a chapter.
pub open spec fn content_page(e: EnvV, r: HttpV, w: World, o: Oracle) -> (Seq<char>, World) {
    lib_restored(
        chapter_text(
            content_rule(e.source),
            r.body,
            r.url,
            content_context(None, None, None, None),
            with_lib(w, opt_text(e.source.js_lib)),
            o,
        ),
        w,
    )
}

/// The page after one page of a chapter.
pub open spec fn page_after(e: EnvV, r: HttpV, w: World, o: Oracle) -> (Option<Seq<char>>, World) {
    lib_restored(
        next_content_page(
            content_rule(e.source),
            r.body,
            r.url,
            content_context(None, None, None, None),
            with_lib(w, opt_text(e.source.js_lib)),
            o,
        ),
        w,
    )
}

pub open spec fn with_fragment(fragments: Seq<Seq<char>>, text: Seq<char>) -> Seq<Seq<char>> {
    if text.len() == 0 {
        fragments
    } else {
        fragments.push(text)
    }
}

/// A page of a chapter: its response, its text and the page after it.
pub struct ContentPageV {
    pub response: HttpV,
    pub text: Seq<char>,
    pub next: Option<Seq<char>>,
}

/// What comes of fetching and reading a page of a chapter.
#[verifier::opaque]
pub open spec fn content_read(e: EnvV, url: Seq<char>, w: World, o: Oracle) -> (Result<ContentPageV, ErrorV>, World) {
    let x = rule_fetched(e, url, seq![], 1, w, o);
    match x.0 {
        Err(f) => (Err(f), x.1),
        Ok(r) => {
            let t = content_page(e, r, x.1, o);
            let n = page_after(e, r, t.1, o);
            (Ok(ContentPageV { response: r, text: t.0, next: n.0 }), n.1)
        },
    }
}

/// What is read of a chapter from a page on, `first` being where its first page
/// was found: each page once, and no more than the request allows.
pub open spec fn content_from(
    e: EnvV,
    url: Seq<char>,
    visited: Seq<Seq<char>>,
    fragments: Seq<Seq<char>>,
    first: Option<Seq<char>>,
    last: Option<HttpV>,
    w: World,
    o: Oracle,
) -> (Result<ContentV, ErrorV>, World)
    decreases e.options.max_pages - visited.len(),
{
    if visited.contains(url) {
        (Ok(ContentV { visited, fragments, last, truncated: false }), w)
    } else if visited.len() >= e.options.max_pages {
        (Ok(ContentV { visited, fragments, last, truncated: true }), w)
    } else {
        let x = content_read(e, url, w, o);
        match x.0 {
            Err(f) => (Err(f), x.1),
            Ok(p) => {
                let seen = visited.push(url);
                let chapter = match first {
                    Some(u) => u,
                    None => p.response.url,
                };
                let texts = with_fragment(fragments, p.text);
                match p.next {
                    Some(next) => if is_further_page(chapter, p.response.url, next) && !seen.contains(next) {
                        content_from(e, next, seen, texts, Some(chapter), Some(p.response), x.1, o)
                    } else {
                        (
                            Ok(ContentV { visited: seen, fragments: texts, last: Some(p.response), truncated: false }),
                            x.1,
                        )
                    },
                    None => (
                        Ok(ContentV { visited: seen, fragments: texts, last: Some(p.response), truncated: false }),
                        x.1,
                    ),
                }
            },
        }
    }
}

pub struct ContentPage {
    pub response: HttpResponse,
    pub text: String,
    pub next: Option<String>,
}

impl ContentPage {
    pub open spec fn model(self) -> ContentPageV {
        ContentPageV { response: self.response.model(), text: self.text@, next: opt_text(self.next) }
    }
}

pub open spec fn content_page_result(r: Result<ContentPage, ExecuteError>) -> Result<ContentPageV, ErrorV> {
    match r {
        Ok(p) => Ok(p.model()),
        Err(f) => Err(f.model()),
    }
}

pub fn read_content_page<E: ScriptEngine + Transport>(e: &Env<'_>, engine: &RuleEngine, url: &str, host: &mut Host<E>) -> (r:
    Result<ContentPage, ExecuteError>)
    ensures
        extends(old(host).log(), final(host).log()),
        forall|o: Oracle| #[trigger]
            agrees(final(host).log(), o) ==> content_read(e.model(), url@, old(host).world(), o) == (
                content_page_result(r),
                final(host).world(),
            ),
{
    broadcast use group_log;

    proof {
        reveal(content_read);
    }
    let none = blank();
    let fetched = fetch_rule(e, url, none.as_str(), 1, host);
    let ghost log1 = host.log();
    let response = match fetched {
        Ok(x) => x,
        Err(f) => {
            return Err(f);
        },
    };
    let text = engine.content(e.source, response.body.as_str(), response.url.as_str(), host);
    let ghost log2 = host.log();
    let next = engine.next_content_url(e.source, response.body.as_str(), response.url.as_str(), host);
    let ghost log3 = host.log();
    proof {
        lemma_extends_on(old(host).log(), log1, log2);
        lemma_extends_on(old(host).log(), log2, log3);
        assert forall|o: Oracle| #[trigger] agrees(log3, o) implies agrees(log2, o) && agrees(log1, o) by {}
    }
    Ok(ContentPage { response, text, next })
}

pub struct Content {
    pub visited: Vec<String>,
    pub fragments: Vec<String>,
    pub last: Option<HttpResponse>,
    pub truncated: bool,
}

impl Content {
    pub open spec fn model(self) -> ContentV {
        ContentV {
            visited: texts(self.visited@),
            fragments: texts(self.fragments@),
            last: opt_http(self.last),
            truncated: self.truncated,
        }
    }
}

pub open spec fn content_result(r: Result<Content, ExecuteError>) -> Result<ContentV, ErrorV> {
    match r {
        Ok(t) => Ok(t.model()),
        Err(f) => Err(f.model()),
    }
}

/// Reads a chapter, page by page.
pub fn collect_content<E: ScriptEngine + Transport>(e: &Env<'_>, engine: &RuleEngine, url: String, host: &mut Host<E>) -> (
r: Result<Content, ExecuteError>)
    ensures
        extends(old(host).log(), final(host).log()),
        forall|o: Oracle| #[trigger]
            agrees(final(host).log(), o) ==> content_from(
                e.model(),
                url@,
                seq![],
                seq![],
                None,
                None,
                old(host).world(),
                o,
            ) == (content_result(r), final(host).world()),
{
    broadcast use group_log;

    let ghost env = e.model();
    let ghost start = url@;
    let ghost w0 = host.world();
    let max = e.options.max_pages;
    let mut current = url;
    let mut visited: Vec<String> = Vec::new();
    assert(texts(visited@) =~= seq![]);
    let mut fragments: Vec<String> = Vec::new();
    assert(texts(fragments@) =~= seq![]);
    let mut first: Option<String> = None;
    let mut last: Option<HttpResponse> = None;
    loop
        invariant
            env == e.model(),
            start == url@,
            max == env.options.max_pages,
            w0 == old(host).world(),
            visited.len() <= max,
            extends(old(host).log(), host.log()),
            forall|o: Oracle| #[trigger]
                agrees(host.log(), o) ==> content_from(env, start, seq![], seq![], None, None, w0, o) == content_from(
                    env,
                    current@,
                    texts(visited@),
                    texts(fragments@),
                    opt_text(first),
                    opt_http(last),
                    host.world(),
                    o,
                ),
        decreases max - visited.len(),
    {
        let ghost log0 = host.log();
        let ghost v0 = texts(visited@);
        let ghost f0 = texts(fragments@);
        if list_contains(&visited, current.as_str()) {
            return Ok(Content { visited, fragments, last, truncated: false });
        }
        assert(v0.len() == visited.len());
        if visited.len() >= max {
            return Ok(Content { visited, fragments, last, truncated: true });
        }
        let read = read_content_page(e, engine, current.as_str(), host);
        let ghost log1 = host.log();
        proof {
            lemma_extends_on(old(host).log(), log0, log1);
            assert forall|o: Oracle| #[trigger] agrees(log1, o) implies agrees(log0, o) by {}
        }
        let page = match read {
            Ok(p) => p,
            Err(f) => {
                return Err(f);
            },
        };
        let ghost u = current@;
        visited.push(current);
        assert(texts(visited@) =~= v0.push(u));
        let chapter = match &first {
            Some(t) => t.clone(),
            None => page.response.url.clone(),
        };
        let ghost t0 = page.text@;
        if !is_empty_text(page.text.as_str()) {
            fragments.push(page.text);
            assert(texts(fragments@) =~= f0.push(t0));
        }
        assert(texts(fragments@) == with_fragment(f0, t0));
        match page.next {
            Some(n) => {
                if should_follow_content_page(chapter.as_str(), page.response.url.as_str(), n.as_str())
                    && !list_contains(&visited, n.as_str()) {
                    current = n;
                    first = Some(chapter);
                    last = Some(page.response);
                } else {
                    return Ok(Content { visited, fragments, last: Some(page.response), truncated: false });
                }
            },
            None => {
                return Ok(Content { visited, fragments, last: Some(page.response), truncated: false });
            },
        }
    }
}

/// A chapter in an answer.
pub open spec fn content_json(c: ContentV, rules: Seq<ReplaceV>) -> JsonV {
    JsonV::Object(
        seq![
            (
                "content"@,
                JsonV::Text(rules_applied(join_of(c.fragments, "\n"@), rules, rules.len() as int)),
            ),
            ("pages"@, JsonV::Number(integer_text(c.visited.len() as int))),
            ("truncated"@, JsonV::Bool(c.truncated)),
        ],
    )
}

/// The answer to what was read of a chapter.
pub open spec fn content_told(c: ContentV, rules: Seq<ReplaceV>, e: EnvV) -> Result<JsonV, ErrorV> {
    match c.last {
        None => Err(plain_error("url_rule"@, "content URL produced no request"@)),
        Some(r) => Ok(
            success_json(content_json(c, rules), c.visited.len() as int, c.truncated, r, e.options.debug),
        ),
    }
}

/// What reading a chapter is answered with. The rules come decoded.
pub open spec fn content_answer(
    e: EnvV,
    params: JsonV,
    rules: Result<Seq<ReplaceV>, Seq<char>>,
    w: World,
    o: Oracle,
) -> (Result<JsonV, ErrorV>, World) {
    match (needed_text(params, "url"@), rules) {
        (Err(f), _) => (Err(f), w),
        (Ok(_), Err(m)) => (Err(invalid_request("invalid params.replaceRules: "@ + m)), w),
        (Ok(url), Ok(list)) => {
            let x = content_from(e, url, seq![], seq![], None, None, w, o);
            (
                match x.0 {
                    Err(f) => Err(f),
                    Ok(c) => content_told(c, list, e),
                },
                x.1,
            )
        },
    }
}

pub open spec fn decoded_rules(r: Result<Vec<ReplaceRule>, String>) -> Result<Seq<ReplaceV>, Seq<char>> {
    match r {
        Ok(v) => Ok(replace_models(v@)),
        Err(e) => Err(e@),
    }
}

pub fn tell_content(c: Content, rules: &Vec<ReplaceRule>, e: &Env<'_>) -> (r: Result<Json, ExecuteError>)
    ensures
        value_result(r) == content_told(c.model(), replace_models(rules@), e.model()),
{
    broadcast use lemma_object_model;

    let ghost v = c.model();
    let ghost list = replace_models(rules@);
    let response = match &c.last {
        Some(x) => x,
        None => {
            return Err(make_error("url_rule", "content URL produced no request".to_owned()));
        },
    };
    assert(v.visited.len() == c.visited.len());
    assert(list.len() == rules.len());
    let text = apply_replace_rules(join(&c.fragments, "\n").as_str(), rules);
    let mut m: Vec<(String, Json)> = Vec::new();
    assert(member_models(m@) =~= seq![]);
    put(&mut m, "content", Json::Text(text));
    put(&mut m, "pages", Json::Number(json_integer(c.visited.len() as i128)));
    put(&mut m, "truncated", Json::Bool(c.truncated));
    assert(member_models(m@) =~= content_json(v, list)->Object_0);
    Ok(success(Json::Object(m), c.visited.len(), c.truncated, response, e.options))
}

pub fn execute_content<E: ScriptEngine + Transport>(
    e: &Env<'_>,
    engine: &RuleEngine,
    params: &Json,
    rules: Result<Vec<ReplaceRule>, String>,
    host: &mut Host<E>,
) -> (r: Result<Json, ExecuteError>)
    ensures
        extends(old(host).log(), final(host).log()),
        forall|o: Oracle| #[trigger]
            agrees(final(host).log(), o) ==> content_answer(
                e.model(),
                params.model(),
                decoded_rules(rules),
                old(host).world(),
                o,
            ) == (value_result(r), final(host).world()),
{
    broadcast use group_log;

    let url = match required_string(params, "url") {
        Ok(t) => t,
        Err(f) => {
            return Err(f);
        },
    };
    let list = match rules {
        Ok(v) => v,
        Err(m) => {
            return Err(make_error("invalid_request", concat("invalid params.replaceRules: ", m.as_str())));
        },
    };
    match collect_content(e, engine, url, host) {
        Ok(c) => tell_content(c, &list, e),
        Err(f) => Err(f),
    }
}

/// What an operation is answered with.
pub open spec fn operation_answer(
    e: EnvV,
    operation: Seq<char>,
    params: JsonV,
    rules: Result<Seq<ReplaceV>, Seq<char>>,
    w: World,
    o: Oracle,
) -> (Result<JsonV, ErrorV>, World) {
    if operation == "search"@ {
        search_answer(e, params, w, o)
    } else if operation == "explore"@ {
        explore_answer(e, params, w, o)
    } else if operation == "info"@ {
        info_answer(e, params, w, o)
    } else if operation == "toc"@ {
        toc_answer(e, params, w, o)
    } else if operation == "content"@ {
        content_answer(e, params, rules, w, o)
    } else if operation == "login_ui"@ {
        login_form(e.source, w, o)
    } else if operation == "login"@ {
        login_answer(e.source, params, w, o)
    } else {
        (Err(invalid_request("unsupported op: "@ + operation)), w)
    }
}

pub fn execute_operation<E: ScriptEngine + Transport>(
    e: &Env<'_>,
    operation: &str,
    params: &Json,
    rules: Result<Vec<ReplaceRule>, String>,
    host: &mut Host<E>,
) -> (r: Result<Json, ExecuteError>)
    ensures
        extends(old(host).log(), final(host).log()),
        forall|o: Oracle| #[trigger]
            agrees(final(host).log(), o) ==> operation_answer(
                e.model(),
                operation@,
                params.model(),
                decoded_rules(rules),
                old(host).world(),
                o,
            ) == (value_result(r), final(host).world()),
{
    broadcast use group_log;

    let engine = match RuleEngine::new() {
        Ok(x) => x,
        Err(m) => {
            return Err(make_error("internal", m));
        },
    };
    if same(operation, "search") {
        execute_search(e, &engine, params, host)
    } else if same(operation, "explore") {
        execute_explore(e, &engine, params, host)
    } else if same(operation, "info") {
        execute_info(e, &engine, params, host)
    } else if same(operation, "toc") {
        execute_toc(e, &engine, params, host)
    } else if same(operation, "content") {
        execute_content(e, &engine, params, rules, host)
    } else if same(operation, "login_ui") {
        execute_login_ui(e.source, host)
    } else if same(operation, "login") {
        execute_login(e.source, params, host)
    } else {
        Err(make_error("invalid_request", concat("unsupported op: ", operation)))
    }
}

/// A session in an answer; what it does not hold is left out.
pub open spec fn session_members(s: SessionV) -> Seq<(Seq<char>, JsonV)> {
    let m: Seq<(Seq<char>, JsonV)> = seq![];
    let c = match s.cookies {
        Some(t) => m.push(("cookies"@, JsonV::Text(t))),
        None => m,
    };
    let h = match s.header {
        Some(v) => c.push(("header"@, v)),
        None => c,
    };
    match s.variables {
        Some(v) => h.push(("variables"@, JsonV::Object(v))),
        None => h,
    }
}

pub open spec fn session_json(s: Option<SessionV>) -> JsonV {
    match s {
        Some(x) => JsonV::Object(session_members(x)),
        None => JsonV::Null,
    }
}

pub fn session_value(s: Option<ExecuteSession>) -> (r: Json)
    ensures
        r.model() == session_json(crate::crawler::session::opt_session(s)),
{
    broadcast use lemma_object_model;

    match s {
        Some(x) => {
            let mut m: Vec<(String, Json)> = Vec::new();
            assert(member_models(m@) =~= seq![]);
            if let Some(t) = x.cookies {
                put(&mut m, "cookies", Json::Text(t));
            }
            if let Some(v) = x.header {
                put(&mut m, "header", v);
            }
            if let Some(v) = x.variables {
                put(&mut m, "variables", Json::Object(v));
            }
            Json::Object(m)
        },
        None => Json::Null,
    }
}

/// An answer with the session that comes out.
pub open spec fn with_session(answer: JsonV, s: Option<SessionV>) -> JsonV {
    match answer {
        JsonV::Object(m) => JsonV::Object(m.push(("session"@, session_json(s)))),
        other => other,
    }
}

/// What a request to a source is answered with: an operation within its session.
pub open spec fn request_answer(
    source: BookSource,
    q: AskedV,
    rules: Result<Seq<ReplaceV>, Seq<char>>,
    w: World,
    o: Oracle,
) -> (Result<JsonV, ErrorV>, World) {
    let e = EnvV { source, client: session_client(source, q.options.timeout_ms), options: q.options };
    let x = operation_answer(
        e,
        q.operation,
        q.params,
        rules,
        session_begun(w, q.session, source.book_source_url@, o),
        o,
    );
    let y = session_ended(x.1, o);
    (
        match x.0 {
            Ok(v) => Ok(with_session(v, y.0)),
            Err(f) => Err(f),
        },
        y.1,
    )
}

pub fn session_ref(s: &Option<ExecuteSession>) -> (r: Option<&ExecuteSession>)
    ensures
        crate::crawler::session::opt_session_ref(r) == crate::crawler::session::opt_session(*s),
{
    match s {
        Some(x) => Some(x),
        None => None,
    }
}

pub fn execute_inner<E: ScriptEngine + Transport>(
    source: &BookSource,
    request: &Request,
    rules: Result<Vec<ReplaceRule>, String>,
    host: &mut Host<E>,
) -> (r: Result<Json, ExecuteError>)
    ensures
        extends(old(host).log(), final(host).log()),
        forall|o: Oracle| #[trigger]
            agrees(final(host).log(), o) ==> request_answer(
                *source,
                request.model(),
                decoded_rules(rules),
                old(host).world(),
                o,
            ) == (value_result(r), final(host).world()),
{
    broadcast use group_log;
    broadcast use lemma_object_model;

    let session = HttpSession::new(source, request.options.timeout_ms);
    let e = Env { source, session: &session, options: &request.options };
    host.begin(session_ref(&request.session), source.book_source_url.as_str());
    let ghost log1 = host.log();
    let result = execute_operation(&e, request.operation.as_str(), &request.params, rules, host);
    let ghost log2 = host.log();
    let delta = host.end();
    let ghost log3 = host.log();
    proof {
        lemma_extends_on(old(host).log(), log1, log2);
        lemma_extends_on(old(host).log(), log2, log3);
        assert forall|o: Oracle| #[trigger] agrees(log3, o) implies agrees(log2, o) && agrees(log1, o) by {}
    }
    match result {
        Ok(Json::Object(m)) => {
            let mut m = m;
            put(&mut m, "session", session_value(delta));
            Ok(Json::Object(m))
        },
        Ok(v) => Ok(v),
        Err(f) => Err(f),
    }
}

/// What the JSON of a request and of its source was decoded to.
pub struct Decoded {
    pub source: Result<BookSource, String>,
    pub options: Result<ExecuteOptions, String>,
    pub session: Result<Option<ExecuteSession>, String>,
    pub replace_rules: Result<Vec<ReplaceRule>, String>,
}

/// What a request is answered with, in JSON.
pub open spec fn executed_answer(
    source_json: Seq<char>,
    request_json: Seq<char>,
    decoded: Decoded,
    w: World,
    o: Oracle,
) -> (JsonV, World) {
    match read_source(source_json, described_source(decoded.source)) {
        Err(f) => (error_json(f), w),
        Ok(source) => match read_request(
            request_json,
            decoded_options(decoded.options),
            decoded_session(decoded.session),
        ) {
            Err(f) => (error_json(f), w),
            Ok(q) => {
                let x = request_answer(source, q, decoded_rules(decoded.replace_rules), w, o);
                (
                    match x.0 {
                        Ok(v) => v,
                        Err(f) => error_json(f),
                    },
                    x.1,
                )
            },
        },
    }
}

pub fn execute_value<E: ScriptEngine + Transport>(
    source_json: &str,
    request_json: &str,
    decoded: Decoded,
    host: &mut Host<E>,
) -> (r: Json)
    ensures
        extends(old(host).log(), final(host).log()),
        forall|o: Oracle| #[trigger]
            agrees(final(host).log(), o) ==> executed_answer(
                source_json@,
                request_json@,
                decoded,
                old(host).world(),
                o,
            ) == (r.model(), final(host).world()),
{
    broadcast use group_log;

    let source = match parse_source(source_json, decoded.source) {
        Ok(s) => s,
        Err(f) => {
            return f.into_json();
        },
    };
    let request = match parse_request(request_json, decoded.options, decoded.session) {
        Ok(q) => q,
        Err(f) => {
            return f.into_json();
        },
    };
    match execute_inner(&source, &request, decoded.replace_rules, host) {
        Ok(v) => v,
        Err(f) => f.into_json(),
    }
}

/// Carries out a request to a source; the answer is JSON, whatever came of it.
pub fn execute<E: ScriptEngine + Transport>(
    source_json: &str,
    request_json: &str,
    decoded: Decoded,
    host: &mut Host<E>,
) -> (r: String)
    ensures
        extends(old(host).log(), final(host).log()),
        forall|o: Oracle| #[trigger]
            agrees(final(host).log(), o) ==> ({
                let x = executed_answer(source_json@, request_json@, decoded, old(host).world(), o);
                (json_text_of(x.0), x.1)
            }) == (r@, final(host).world()),
{
    let v = execute_value(source_json, request_json, decoded, host);
    json_to_text(&v)
}

/// Whether the chapters have addresses of their own, and are numbered by their place.
pub open spec fn is_chapter_list(chapters: Seq<ChapterV>) -> bool {
    &&& forall|i: int, j: int| 0 <= i < j < chapters.len() ==> (#[trigger] chapters[i]).url != (#[trigger] chapters[j]).url
    &&& forall|i: int| 0 <= i < chapters.len() ==> (#[trigger] chapters[i]).index == i as i32
}

proof fn lemma_with_chapters(chapters: Seq<ChapterV>, page: Seq<ChapterV>, n: int)
    requires
        is_chapter_list(chapters),
        0 <= n <= page.len(),
    ensures
        is_chapter_list(with_chapters(chapters, page, n)),
    decreases n,
{
    if n > 0 {
        lemma_with_chapters(chapters, page, n - 1);
    }
}

proof fn lemma_toc_from(
    e: EnvV,
    pending: Seq<Seq<char>>,
    visited: Seq<Seq<char>>,
    chapters: Seq<ChapterV>,
    last: Option<HttpV>,
    w: World,
    o: Oracle,
)
    requires
        visited.no_duplicates(),
        visited.len() <= e.options.max_pages,
        is_chapter_list(chapters),
    ensures
        ({
            let x = toc_from(e, pending, visited, chapters, last, w, o);
            x.0 is Ok ==> {
                &&& x.0->Ok_0.visited.no_duplicates()
                &&& x.0->Ok_0.visited.len() <= e.options.max_pages
                &&& x.0->Ok_0.truncated ==> x.0->Ok_0.visited.len() == e.options.max_pages
                &&& is_chapter_list(x.0->Ok_0.chapters)
            }
        }),
    decreases e.options.max_pages - visited.len(), pending.len(),
{
    if pending.len() > 0 {
        let url = pending[0];
        let rest = pending.skip(1);
        if visited.contains(url) {
            lemma_toc_from(e, rest, visited, chapters, last, w, o);
        } else if visited.len() < e.options.max_pages {
            let x = toc_read(e, url, w, o);
            if let Ok(p) = x.0 {
                let seen = visited.push(url);
                lemma_with_chapters(chapters, p.chapters, p.chapters.len() as int);
                lemma_toc_from(
                    e,
                    with_pages(rest, p.next, seen, p.next.len() as int),
                    seen,
                    with_chapters(chapters, p.chapters, p.chapters.len() as int),
                    Some(p.response),
                    x.1,
                    o,
                );
            }
        }
    }
}

/// Reading a table of contents reads no page twice and no more pages than the
/// request allows, stops short only at that number, and lists each chapter once,
/// numbered by its place.
pub proof fn law_toc_pages_once(e: EnvV, url: Seq<char>, w: World, o: Oracle)
    ensures
        ({
            let x = toc_from(e, seq![url], seq![], seq![], None, w, o);
            x.0 is Ok ==> {
                &&& x.0->Ok_0.visited.no_duplicates()
                &&& x.0->Ok_0.visited.len() <= e.options.max_pages
                &&& x.0->Ok_0.truncated ==> x.0->Ok_0.visited.len() == e.options.max_pages
                &&& is_chapter_list(x.0->Ok_0.chapters)
            }
        }),
{
    lemma_toc_from(e, seq![url], seq![], seq![], None, w, o);
}

/// The further pages that the pages of a table of contents name, as it is read
/// from a state on.
pub open spec fn toc_named(
    e: EnvV,
    pending: Seq<Seq<char>>,
    visited: Seq<Seq<char>>,
    w: World,
    o: Oracle,
) -> Seq<Seq<char>>
    decreases e.options.max_pages - visited.len(), pending.len(),
{
    if pending.len() == 0 {
        seq![]
    } else {
        let url = pending[0];
        let rest = pending.skip(1);
        if visited.contains(url) {
            toc_named(e, rest, visited, w, o)
        } else if visited.len() >= e.options.max_pages {
            seq![]
        } else {
            let x = toc_read(e, url, w, o);
            match x.0 {
                Err(_) => seq![],
                Ok(p) => {
                    let seen = visited.push(url);
                    p.next + toc_named(e, with_pages(rest, p.next, seen, p.next.len() as int), seen, x.1, o)
                },
            }
        }
    }
}

proof fn lemma_with_pages(pending: Seq<Seq<char>>, next: Seq<Seq<char>>, visited: Seq<Seq<char>>, n: int)
    requires
        0 <= n <= next.len(),
    ensures
        forall|u: Seq<char>| pending.contains(u) ==> #[trigger] with_pages(pending, next, visited, n).contains(u),
        forall|i: int|
            0 <= i < n && trim_of(#[trigger] next[i]).len() > 0 ==> visited.contains(next[i]) || with_pages(
                pending,
                next,
                visited,
                n,
            ).contains(next[i]),
    decreases n,
{
    if n > 0 {
        lemma_with_pages(pending, next, visited, n - 1);
        let before = with_pages(pending, next, visited, n - 1);
        let all = with_pages(pending, next, visited, n);
        assert forall|u: Seq<char>| before.contains(u) implies #[trigger] all.contains(u) by {
            let k = choose|k: int| 0 <= k < before.len() && before[k] == u;
            assert(all[k] == u);
        }
        if trim_of(next[n - 1]).len() > 0 && !visited.contains(next[n - 1]) {
            assert(all[all.len() - 1] == next[n - 1]);
        }
    }
}

proof fn lemma_toc_complete(
    e: EnvV,
    pending: Seq<Seq<char>>,
    visited: Seq<Seq<char>>,
    chapters: Seq<ChapterV>,
    last: Option<HttpV>,
    w: World,
    o: Oracle,
)
    ensures
        ({
            let x = toc_from(e, pending, visited, chapters, last, w, o);
            x.0 is Ok && !x.0->Ok_0.truncated ==> {
                &&& forall|u: Seq<char>| visited.contains(u) ==> #[trigger] x.0->Ok_0.visited.contains(u)
                &&& forall|u: Seq<char>| pending.contains(u) ==> #[trigger] x.0->Ok_0.visited.contains(u)
                &&& forall|u: Seq<char>|
                    toc_named(e, pending, visited, w, o).contains(u) && trim_of(u).len() > 0
                        ==> #[trigger] x.0->Ok_0.visited.contains(u)
            }
        }),
    decreases e.options.max_pages - visited.len(), pending.len(),
{
    if pending.len() > 0 {
        let url = pending[0];
        let rest = pending.skip(1);
        assert forall|u: Seq<char>| pending.contains(u) && u != url implies rest.contains(u) by {
            let k = choose|k: int| 0 <= k < pending.len() && pending[k] == u;
            assert(rest[k - 1] == u);
        }
        if visited.contains(url) {
            lemma_toc_complete(e, rest, visited, chapters, last, w, o);
        } else if visited.len() < e.options.max_pages {
            let x = toc_read(e, url, w, o);
            if let Ok(p) = x.0 {
                let seen = visited.push(url);
                let more = with_pages(rest, p.next, seen, p.next.len() as int);
                let all = with_chapters(chapters, p.chapters, p.chapters.len() as int);
                lemma_with_pages(rest, p.next, seen, p.next.len() as int);
                lemma_toc_complete(e, more, seen, all, Some(p.response), x.1, o);
                let end = toc_from(e, more, seen, all, Some(p.response), x.1, o);
                assert(seen[visited.len() as int] == url);
                assert forall|u: Seq<char>| visited.contains(u) implies seen.contains(u) by {
                    let k = choose|k: int| 0 <= k < visited.len() && visited[k] == u;
                    assert(seen[k] == u);
                }
                if end.0 is Ok && !end.0->Ok_0.truncated {
                    let named = toc_named(e, more, seen, x.1, o);
                    assert forall|u: Seq<char>|
                        (p.next + named).contains(u) && trim_of(u).len() > 0 implies #[trigger] end.0->Ok_0.visited.contains(
                        u,
                    ) by {
                        let k = choose|k: int| 0 <= k < (p.next + named).len() && (p.next + named)[k] == u;
                        if k < p.next.len() {
                            assert(p.next[k] == u);
                            assert(seen.contains(u) || more.contains(u));
                        } else {
                            assert(named[k - p.next.len()] == u);
                            assert(named.contains(u));
                        }
                    }
                }
            }
        }
    }
}

/// A table of contents that was not cut off read its first page and every page
/// that one of its pages named.
pub proof fn law_whole_toc_is_read(e: EnvV, url: Seq<char>, w: World, o: Oracle)
    ensures
        ({
            let x = toc_from(e, seq![url], seq![], seq![], None, w, o);
            x.0 is Ok && !x.0->Ok_0.truncated ==> {
                &&& x.0->Ok_0.visited.contains(url)
                &&& forall|u: Seq<char>|
                    toc_named(e, seq![url], seq![], w, o).contains(u) && trim_of(u).len() > 0
                        ==> #[trigger] x.0->Ok_0.visited.contains(u)
            }
        }),
{
    lemma_toc_complete(e, seq![url], seq![], seq![], None, w, o);
    assert(seq![url][0] == url);
}

proof fn lemma_content_from(
    e: EnvV,
    url: Seq<char>,
    visited: Seq<Seq<char>>,
    fragments: Seq<Seq<char>>,
    first: Option<Seq<char>>,
    last: Option<HttpV>,
    w: World,
    o: Oracle,
)
    requires
        visited.no_duplicates(),
        visited.len() <= e.options.max_pages,
        fragments.len() <= visited.len(),
    ensures
        ({
            let x = content_from(e, url, visited, fragments, first, last, w, o);
            x.0 is Ok ==> {
                &&& x.0->Ok_0.visited.no_duplicates()
                &&& x.0->Ok_0.visited.len() <= e.options.max_pages
                &&& x.0->Ok_0.truncated ==> x.0->Ok_0.visited.len() == e.options.max_pages
                &&& x.0->Ok_0.fragments.len() <= x.0->Ok_0.visited.len()
            }
        }),
    decreases e.options.max_pages - visited.len(),
{
    if !visited.contains(url) && visited.len() < e.options.max_pages {
        let x = content_read(e, url, w, o);
        if let Ok(p) = x.0 {
            let seen = visited.push(url);
            let chapter = match first {
                Some(u) => u,
                None => p.response.url,
            };
            let all = with_fragment(fragments, p.text);
            if let Some(next) = p.next {
                if is_further_page(chapter, p.response.url, next) && !seen.contains(next) {
                    lemma_content_from(e, next, seen, all, Some(chapter), Some(p.response), x.1, o);
                }
            }
        }
    }
}

/// Reading a chapter reads no page twice and no more pages than the request
/// allows, stops short only at that number, and has a text for each page at most.
pub proof fn law_content_pages_once(e: EnvV, url: Seq<char>, w: World, o: Oracle)
    ensures
        ({
            let x = content_from(e, url, seq![], seq![], None, None, w, o);
            x.0 is Ok ==> {
                &&& x.0->Ok_0.visited.no_duplicates()
                &&& x.0->Ok_0.visited.len() <= e.options.max_pages
                &&& x.0->Ok_0.truncated ==> x.0->Ok_0.visited.len() == e.options.max_pages
                &&& x.0->Ok_0.fragments.len() <= x.0->Ok_0.visited.len()
            }
        }),
{
    lemma_content_from(e, url, seq![], seq![], None, None, w, o);
}

/// A source or a request that is refused is answered with the error, and
/// nothing is asked of the site or of a script.
pub proof fn law_refused_request_does_nothing(
    source_json: Seq<char>,
    request_json: Seq<char>,
    decoded: Decoded,
    w: World,
    o: Oracle,
)
    requires
        read_source(source_json, described_source(decoded.source)) is Err || read_request(
            request_json,
            decoded_options(decoded.options),
            decoded_session(decoded.session),
        ) is Err,
    ensures
        executed_answer(source_json, request_json, decoded, w, o).1 == w,
        exists|f: ErrorV| executed_answer(source_json, request_json, decoded, w, o).0 == #[trigger] error_json(f),
{
    match read_source(source_json, described_source(decoded.source)) {
        Err(f) => {
            assert(executed_answer(source_json, request_json, decoded, w, o).0 == error_json(f));
        },
        Ok(_) => {
            let f = read_request(
                request_json,
                decoded_options(decoded.options),
                decoded_session(decoded.session),
            )->Err_0;
            assert(executed_answer(source_json, request_json, decoded, w, o).0 == error_json(f));
        },
    }
}

/// Whether a value is the answer to a request that was carried out.
pub open spec fn is_success(v: JsonV) -> bool {
    v is Object && v->Object_0.len() == 3 && v->Object_0[0] == ("ok"@, JsonV::Bool(true)) && v->Object_0[1].0 == "data"@
        && v->Object_0[2].0 == "meta"@
}

proof fn lemma_search_succeeds(e: EnvV, params: JsonV, w: World, o: Oracle)
    ensures
        search_answer(e, params, w, o).0 is Ok ==> is_success(search_answer(e, params, w, o).0->Ok_0),
{
}

proof fn lemma_explore_succeeds(e: EnvV, params: JsonV, w: World, o: Oracle)
    ensures
        explore_answer(e, params, w, o).0 is Ok ==> is_success(explore_answer(e, params, w, o).0->Ok_0),
{
}

proof fn lemma_info_succeeds(e: EnvV, params: JsonV, w: World, o: Oracle)
    ensures
        info_answer(e, params, w, o).0 is Ok ==> is_success(info_answer(e, params, w, o).0->Ok_0),
{
}

proof fn lemma_toc_succeeds(e: EnvV, params: JsonV, w: World, o: Oracle)
    ensures
        toc_answer(e, params, w, o).0 is Ok ==> is_success(toc_answer(e, params, w, o).0->Ok_0),
{
}

proof fn lemma_content_succeeds(e: EnvV, params: JsonV, rules: Result<Seq<ReplaceV>, Seq<char>>, w: World, o: Oracle)
    ensures
        content_answer(e, params, rules, w, o).0 is Ok ==> is_success(content_answer(e, params, rules, w, o).0->Ok_0),
{
}

proof fn lemma_login_succeeds(source: BookSource, params: JsonV, w: World, o: Oracle)
    ensures
        login_form(source, w, o).0 is Ok ==> is_success(login_form(source, w, o).0->Ok_0),
        login_answer(source, params, w, o).0 is Ok ==> is_success(login_answer(source, params, w, o).0->Ok_0),
{
}

proof fn lemma_operation_succeeds(
    e: EnvV,
    operation: Seq<char>,
    params: JsonV,
    rules: Result<Seq<ReplaceV>, Seq<char>>,
    w: World,
    o: Oracle,
)
    ensures
        operation_answer(e, operation, params, rules, w, o).0 is Ok ==> is_success(
            operation_answer(e, operation, params, rules, w, o).0->Ok_0,
        ),
{
    lemma_search_succeeds(e, params, w, o);
    lemma_explore_succeeds(e, params, w, o);
    lemma_info_succeeds(e, params, w, o);
    lemma_toc_succeeds(e, params, w, o);
    lemma_content_succeeds(e, params, rules, w, o);
    lemma_login_succeeds(e.source, params, w, o);
}

/// Every answer is an envelope: `ok` and then, where the request was carried
/// out, the data, how they came about and the session; else the error.
pub proof fn law_answer_is_envelope(
    source_json: Seq<char>,
    request_json: Seq<char>,
    decoded: Decoded,
    w: World,
    o: Oracle,
)
    ensures
        ({
            let v = executed_answer(source_json, request_json, decoded, w, o).0;
            ||| exists|f: ErrorV| v == #[trigger] error_json(f)
            ||| exists|a: JsonV, s: Option<SessionV>| is_success(a) && v == #[trigger] with_session(a, s)
        }),
{
    let v = executed_answer(source_json, request_json, decoded, w, o).0;
    match read_source(source_json, described_source(decoded.source)) {
        Err(f) => {
            assert(v == error_json(f));
        },
        Ok(source) => match read_request(
            request_json,
            decoded_options(decoded.options),
            decoded_session(decoded.session),
        ) {
            Err(f) => {
                assert(v == error_json(f));
            },
            Ok(q) => {
                let rules = decoded_rules(decoded.replace_rules);
                let e = EnvV { source, client: session_client(source, q.options.timeout_ms), options: q.options };
                let w1 = session_begun(w, q.session, source.book_source_url@, o);
                let x = operation_answer(e, q.operation, q.params, rules, w1, o);
                lemma_operation_succeeds(e, q.operation, q.params, rules, w1, o);
                match x.0 {
                    Ok(a) => {
                        assert(v == with_session(a, session_ended(x.1, o).0));
                    },
                    Err(f) => {
                        assert(v == error_json(f));
                    },
                }
            },
        },
    }
}

/// A request whose operation leaves its session as it started is answered
/// without a session, whatever session came in, and leaves the sessions around it.
pub proof fn law_untouched_request_is_silent(
    source: BookSource,
    q: AskedV,
    rules: Result<Seq<ReplaceV>, Seq<char>>,
    w: World,
    o: Oracle,
)
    requires
        q.session is Some ==> is_session(q.session->0),
        ({
            let e = EnvV { source, client: session_client(source, q.options.timeout_ms), options: q.options };
            let w1 = session_begun(w, q.session, source.book_source_url@, o);
            operation_answer(e, q.operation, q.params, rules, w1, o).1.state == w1.state
        }),
    ensures
        request_answer(source, q, rules, w, o).0 matches Ok(v) ==> exists|a: JsonV|
            v == #[trigger] with_session(a, None),
        request_answer(source, q, rules, w, o).1.state == w.state,
{
    let e = EnvV { source, client: session_client(source, q.options.timeout_ms), options: q.options };
    let url = source.book_source_url@;
    let w1 = session_begun(w, q.session, url, o);
    let x = operation_answer(e, q.operation, q.params, rules, w1, o);
    let first = next_answer(w, o).cookies;
    let last = next_answer(x.1, o).cookies;
    law_untouched_session_is_silent(w.state, q.session, url, first, last);
    assert(w1.state.stack.drop_last() =~= w.state.stack);
    if let Ok(a) = x.0 {
        assert(request_answer(source, q, rules, w, o).0 == Ok::<JsonV, ErrorV>(with_session(a, None)));
    }
}

} // verus!
