//! What holds of the answers to requests: what was asked for is in them.

use crate::crawler::fetch::fetched;
use crate::crawler::response::HttpV;
use crate::crawler::url_rule::analyzed;
use crate::executor::content_laws::{is_content_of, law_content_in_order};
use crate::executor::pages::rules_applied;
use crate::executor::request::{needed_text, page_of, success_json, ErrorV};
use crate::executor::run::{
    book_read, content_answer, content_from, content_read, explore_answer, explore_read, info_answer, operation_answer,
    rule_fetched, search_answer, search_read, toc_answer, toc_from, toc_read, ContentV, EnvV, TocV,
};
use crate::executor::toc_laws::{is_toc_of, law_toc_in_order};
use crate::executor::values::{chapter_json, chapters_json, found_json, found_list_json, fresh_book_json};
use crate::ext::json::{integer_text, member_in, member_of, JsonV};
use crate::model::book_chapter::ChapterV;
use crate::model::replace_rule::ReplaceV;
use crate::model::search::FoundBookV;
use crate::parser::rule_engine::{
    book_context, chapter_text, content_context, content_rule, explore_rule, next_content_page, page_results,
    search_results, source_book, source_toc, toc_rule, BookV,
};
use crate::parser::script::{Oracle, World};
use crate::util::chars::{join_of, opt_text, trim_of};
use vstd::prelude::*;
use vstd::string::*;

verus! {

proof fn lemma_member_from(m: Seq<(Seq<char>, JsonV)>, i: int, n: int)
    requires
        0 <= i < n <= m.len(),
        forall|j: int| i < j < n ==> (#[trigger] m[j]).0 != m[i].0,
    ensures
        member_in(m, m[i].0, n) == Some(m[i].1),
    decreases n,
{
    if i < n - 1 {
        assert(m[n - 1].0 != m[i].0);
        lemma_member_from(m, i, n - 1);
    }
}

/// A member of a name of its own is found by that name.
pub proof fn lemma_member(m: Seq<(Seq<char>, JsonV)>, i: int)
    requires
        0 <= i < m.len(),
        forall|j: int| i < j < m.len() ==> (#[trigger] m[j]).0 != m[i].0,
    ensures
        member_of(JsonV::Object(m), m[i].0) == Some(m[i].1),
{
    lemma_member_from(m, i, m.len() as int);
}

/// A text that may be missing, in JSON.
pub open spec fn text_or_null(t: Option<Seq<char>>) -> JsonV {
    match t {
        Some(x) => JsonV::Text(x),
        None => JsonV::Null,
    }
}

/// A result in an answer has the values of the result under their names.
#[verifier::rlimit(40)]
pub proof fn law_result_in_answer(b: FoundBookV)
    ensures
        member_of(found_json(b), "name"@) == Some(JsonV::Text(b.name)),
        member_of(found_json(b), "author"@) == Some(JsonV::Text(b.author)),
        member_of(found_json(b), "bookUrl"@) == Some(JsonV::Text(b.book_url)),
        member_of(found_json(b), "origin"@) == Some(JsonV::Text(b.origin)),
        member_of(found_json(b), "coverUrl"@) == Some(text_or_null(b.cover_url)),
        member_of(found_json(b), "intro"@) == Some(text_or_null(b.intro)),
        member_of(found_json(b), "kind"@) == Some(text_or_null(b.kind)),
        member_of(found_json(b), "lastChapter"@) == Some(text_or_null(b.last_chapter)),
        member_of(found_json(b), "updateTime"@) == Some(text_or_null(b.update_time)),
        member_of(found_json(b), "wordCount"@) == Some(text_or_null(b.word_count)),
        b.variable matches Some(t) ==> member_of(found_json(b), "variable"@) == Some(JsonV::Text(t)),
{
    reveal_strlit("name");
    reveal_strlit("author");
    reveal_strlit("bookUrl");
    reveal_strlit("origin");
    reveal_strlit("coverUrl");
    reveal_strlit("intro");
    reveal_strlit("kind");
    reveal_strlit("lastChapter");
    reveal_strlit("updateTime");
    reveal_strlit("wordCount");
    reveal_strlit("variable");
    reveal_strlit("bookSourceUrls");
    assert("name"@[0] == 'n' && "kind"@[0] == 'k');
    assert("author"@[0] == 'a' && "origin"@[0] == 'o');
    assert("coverUrl"@[0] == 'c' && "variable"@[0] == 'v');
    let m = found_json(b)->Object_0;
    assert(found_json(b) == JsonV::Object(m));
    assert(m.len() >= 10);
    assert(m[0].0 == "name"@ && m[1].0 == "author"@ && m[2].0 == "bookUrl"@ && m[3].0 == "origin"@ && m[4].0
        == "coverUrl"@ && m[5].0 == "intro"@ && m[6].0 == "kind"@ && m[7].0 == "lastChapter"@ && m[8].0
        == "updateTime"@ && m[9].0 == "wordCount"@);
    assert(forall|j: int|
        10 <= j < m.len() ==> (#[trigger] m[j]).0 == "variable"@ || m[j].0 == "bookSourceUrls"@);
    lemma_member(m, 0);
    lemma_member(m, 1);
    lemma_member(m, 2);
    lemma_member(m, 3);
    lemma_member(m, 4);
    lemma_member(m, 5);
    lemma_member(m, 6);
    lemma_member(m, 7);
    lemma_member(m, 8);
    lemma_member(m, 9);
    if b.variable is Some {
        assert(m[10] == ("variable"@, JsonV::Text(b.variable->0)));
        lemma_member(m, 10);
    }
}

/// A chapter in an answer has the values of the chapter under their names.
pub proof fn law_chapter_in_answer(c: ChapterV)
    ensures
        member_of(chapter_json(c), "title"@) == Some(JsonV::Text(c.title)),
        member_of(chapter_json(c), "url"@) == Some(JsonV::Text(c.url)),
        member_of(chapter_json(c), "index"@) == Some(JsonV::Number(integer_text(c.index as int))),
        member_of(chapter_json(c), "tag"@) == Some(text_or_null(c.tag)),
        member_of(chapter_json(c), "isVip"@) == Some(JsonV::Bool(c.is_vip)),
        member_of(chapter_json(c), "isPay"@) == Some(JsonV::Bool(c.is_pay)),
        member_of(chapter_json(c), "isVolume"@) == Some(JsonV::Bool(c.is_volume)),
        c.variable matches Some(t) ==> member_of(chapter_json(c), "variable"@) == Some(JsonV::Text(t)),
{
    reveal_strlit("title");
    reveal_strlit("url");
    reveal_strlit("index");
    reveal_strlit("tag");
    reveal_strlit("isVip");
    reveal_strlit("isPay");
    reveal_strlit("isVolume");
    reveal_strlit("variable");
    assert("title"@[0] == 't' && "index"@[1] == 'n' && "isVip"@[2] == 'V' && "isPay"@[2] == 'P' && "index"@[0] == 'i'
        && "isVip"@[1] == 's' && "isPay"@[1] == 's' && "isVip"@[0] == 'i' && "isPay"@[0] == 'i');
    assert("url"@[0] == 'u' && "tag"@[0] == 't');
    assert("isVolume"@[0] == 'i' && "variable"@[0] == 'v');
    let m = chapter_json(c)->Object_0;
    assert(chapter_json(c) == JsonV::Object(m));
    assert(m.len() >= 7);
    assert(m[0].0 == "title"@ && m[1].0 == "url"@ && m[2].0 == "index"@ && m[3].0 == "tag"@ && m[4].0 == "isVip"@
        && m[5].0 == "isPay"@ && m[6].0 == "isVolume"@);
    assert(forall|j: int| 7 <= j < m.len() ==> (#[trigger] m[j]).0 == "variable"@);
    lemma_member(m, 0);
    lemma_member(m, 1);
    lemma_member(m, 2);
    lemma_member(m, 3);
    lemma_member(m, 4);
    lemma_member(m, 5);
    lemma_member(m, 6);
    if c.variable is Some {
        assert(m[7] == ("variable"@, JsonV::Text(c.variable->0)));
        lemma_member(m, 7);
    }
}

proof fn lemma_book_names()
    ensures
        "name"@.len() == 4 && "type"@.len() == 4 && "kind"@.len() == 4,
        "name"@[0] == 'n' && "type"@[0] == 't' && "kind"@[0] == 'k',
        "author"@.len() == 6 && "origin"@.len() == 6 && "tocUrl"@.len() == 6,
        "author"@[0] == 'a' && "origin"@[0] == 'o' && "tocUrl"@[0] == 't',
        "bookUrl"@.len() == 7 && "charset"@.len() == 7 && "tocHtml"@.len() == 7,
        "bookUrl"@[0] == 'b' && "charset"@[0] == 'c' && "tocHtml"@[0] == 't',
        "coverUrl"@.len() == 8 && "infoHtml"@.len() == 8 && "variable"@.len() == 8,
        "coverUrl"@[0] == 'c' && "infoHtml"@[0] == 'i' && "variable"@[0] == 'v',
        "canUpdate"@.len() == 9 && "wordCount"@.len() == 9 && "canReName"@.len() == 9,
        "canUpdate"@[3] == 'U' && "wordCount"@[3] == 'd' && "canReName"@[3] == 'R',
        "originName"@.len() == 10 && "updateTime"@.len() == 10,
        "originName"@[0] == 'o' && "updateTime"@[0] == 'u',
        "downloadUrls"@.len() == 12,
        "intro"@.len() == 5 && "group"@.len() == 5 && "intro"@[0] == 'i' && "group"@[0] == 'g',
        "durChapterPos"@.len() == 13 && "lastCheckTime"@.len() == 13,
        "customCoverUrl"@.len() == 14 && "durChapterTime"@.len() == 14,
        "durChapterIndex"@.len() == 15 && "durChapterTitle"@.len() == 15 && "totalChapterNum"@.len() == 15,
        "latestChapterTitle"@.len() == 18,
{
    reveal_strlit("name");
    reveal_strlit("author");
    reveal_strlit("bookUrl");
    reveal_strlit("origin");
    reveal_strlit("originName");
    reveal_strlit("coverUrl");
    reveal_strlit("tocUrl");
    reveal_strlit("charset");
    reveal_strlit("customCoverUrl");
    reveal_strlit("canUpdate");
    reveal_strlit("durChapterIndex");
    reveal_strlit("durChapterPos");
    reveal_strlit("durChapterTime");
    reveal_strlit("durChapterTitle");
    reveal_strlit("intro");
    reveal_strlit("latestChapterTitle");
    reveal_strlit("lastCheckTime");
    reveal_strlit("totalChapterNum");
    reveal_strlit("type");
    reveal_strlit("group");
    reveal_strlit("wordCount");
    reveal_strlit("infoHtml");
    reveal_strlit("tocHtml");
    reveal_strlit("kind");
    reveal_strlit("updateTime");
    reveal_strlit("canReName");
    reveal_strlit("downloadUrls");
    reveal_strlit("variable");
}

/// A book in an answer has the values of the book under their names.
#[verifier::rlimit(80)]
pub proof fn law_book_in_answer(b: BookV)
    ensures
        member_of(fresh_book_json(b), "name"@) == Some(JsonV::Text(b.name)),
        member_of(fresh_book_json(b), "author"@) == Some(JsonV::Text(b.author)),
        member_of(fresh_book_json(b), "bookUrl"@) == Some(JsonV::Text(b.book_url)),
        member_of(fresh_book_json(b), "origin"@) == Some(JsonV::Text(b.origin)),
        member_of(fresh_book_json(b), "originName"@) == Some(text_or_null(b.origin_name)),
        member_of(fresh_book_json(b), "coverUrl"@) == Some(text_or_null(b.cover_url)),
        member_of(fresh_book_json(b), "tocUrl"@) == Some(text_or_null(b.toc_url)),
        member_of(fresh_book_json(b), "intro"@) == Some(text_or_null(b.intro)),
        member_of(fresh_book_json(b), "latestChapterTitle"@) == Some(text_or_null(b.latest_chapter_title)),
        member_of(fresh_book_json(b), "wordCount"@) == Some(text_or_null(b.word_count)),
        member_of(fresh_book_json(b), "kind"@) == Some(text_or_null(b.kind)),
        member_of(fresh_book_json(b), "updateTime"@) == Some(text_or_null(b.update_time)),
        member_of(fresh_book_json(b), "canReName"@) == Some(text_or_null(b.can_re_name)),
        member_of(fresh_book_json(b), "downloadUrls"@) == Some(text_or_null(b.download_urls)),
{
    lemma_book_names();
    let m = fresh_book_json(b)->Object_0;
    assert(fresh_book_json(b) == JsonV::Object(m));
    assert(m.len() >= 27);
    assert(m[0].0 == "name"@ && m[1].0 == "author"@ && m[2].0 == "bookUrl"@ && m[3].0 == "origin"@ && m[4].0
        == "originName"@ && m[5].0 == "coverUrl"@ && m[6].0 == "tocUrl"@ && m[7].0 == "charset"@ && m[8].0
        == "customCoverUrl"@ && m[9].0 == "canUpdate"@ && m[10].0 == "durChapterIndex"@ && m[11].0 == "durChapterPos"@
        && m[12].0 == "durChapterTime"@ && m[13].0 == "durChapterTitle"@);
    assert(m[14].0 == "intro"@ && m[15].0 == "latestChapterTitle"@ && m[16].0 == "lastCheckTime"@ && m[17].0
        == "totalChapterNum"@ && m[18].0 == "type"@ && m[19].0 == "group"@ && m[20].0 == "wordCount"@ && m[21].0
        == "infoHtml"@ && m[22].0 == "tocHtml"@ && m[23].0 == "kind"@ && m[24].0 == "updateTime"@ && m[25].0
        == "canReName"@ && m[26].0 == "downloadUrls"@);
    assert(forall|j: int| 27 <= j < m.len() ==> (#[trigger] m[j]).0 == "variable"@);
    lemma_member(m, 0);
    lemma_member(m, 1);
    lemma_member(m, 2);
    lemma_member(m, 3);
    lemma_member(m, 4);
    lemma_member(m, 5);
    lemma_member(m, 6);
    lemma_member(m, 14);
    lemma_member(m, 15);
    lemma_member(m, 20);
    lemma_member(m, 23);
    lemma_member(m, 24);
    lemma_member(m, 25);
    lemma_member(m, 26);
}

/// Whether an answer says that a request was carried out and came by a
/// response: it has the data, the number of the pages that were read, whether
/// more were left, and where the last page was found.
pub open spec fn is_told(answer: JsonV, data: JsonV, pages: int, truncated: bool, r: HttpV) -> bool {
    &&& member_of(answer, "ok"@) == Some(JsonV::Bool(true))
    &&& member_of(answer, "data"@) == Some(data)
    &&& member_of(answer, "meta"@) matches Some(meta) && {
        &&& member_of(meta, "pages"@) == Some(JsonV::Number(integer_text(pages)))
        &&& member_of(meta, "truncated"@) == Some(JsonV::Bool(truncated))
        &&& member_of(meta, "finalUrl"@) == Some(JsonV::Text(r.url))
        &&& member_of(meta, "status"@) == Some(JsonV::Number(integer_text(r.status as int)))
    }
}

proof fn lemma_told(data: JsonV, pages: int, truncated: bool, r: HttpV, debug: bool)
    ensures
        is_told(success_json(data, pages, truncated, r, debug), data, pages, truncated, r),
{
    reveal_strlit("ok");
    reveal_strlit("data");
    reveal_strlit("meta");
    reveal_strlit("pages");
    reveal_strlit("truncated");
    reveal_strlit("finalUrl");
    reveal_strlit("status");
    reveal_strlit("debug");
    assert("data"@[0] == 'd' && "meta"@[0] == 'm');
    assert("pages"@[0] == 'p' && "debug"@[0] == 'd');
    let m = success_json(data, pages, truncated, r, debug)->Object_0;
    assert(success_json(data, pages, truncated, r, debug) == JsonV::Object(m));
    lemma_member(m, 0);
    lemma_member(m, 1);
    lemma_member(m, 2);
    let n = m[2].1->Object_0;
    assert(m[2].1 == JsonV::Object(n));
    assert(n[0].0 == "pages"@ && n[1].0 == "truncated"@ && n[2].0 == "finalUrl"@ && n[3].0 == "status"@);
    assert(forall|j: int| 4 <= j < n.len() ==> (#[trigger] n[j]).0 == "debug"@);
    lemma_member(n, 0);
    lemma_member(n, 1);
    lemma_member(n, 2);
    lemma_member(n, 3);
}

/// The world in which the scripts of a source see its library.
pub open spec fn in_library(e: EnvV, w: World) -> World {
    World { lib: opt_text(e.source.js_lib), ..w }
}

/// Whether a value lists results, all and in their order.
pub open spec fn lists_results(v: JsonV, found: Seq<FoundBookV>) -> bool {
    v matches JsonV::Array(list) && list.len() == found.len() && forall|i: int|
        0 <= i < list.len() ==> #[trigger] list[i] == found_json(found[i])
}

/// A search asks for the key and the page by the rule of the source for
/// searches, and is answered with the results of the page that comes back, all
/// and in their order.
pub proof fn law_search_is_answered(
    e: EnvV,
    params: JsonV,
    key: Seq<char>,
    page: i32,
    rule: Seq<char>,
    r: HttpV,
    w: World,
    w1: World,
    o: Oracle,
)
    requires
        needed_text(params, "key"@) == Ok::<Seq<char>, ErrorV>(key),
        page_of(params) == Ok::<i32, ErrorV>(page),
        opt_text(e.source.search_url) == Some(rule),
        trim_of(rule).len() > 0,
        rule_fetched(e, rule, key, page, w, o) == (Ok::<HttpV, ErrorV>(r), w1),
    ensures
        ({
            let found = search_results(e.source, r.body, r.url, in_library(e, w1), o).0;
            let got = search_answer(e, params, w, o).0;
            got matches Ok(v) && exists|data: JsonV| #[trigger] is_told(v, data, 1, false, r) && lists_results(data, found)
        }),
{
    reveal(search_read);
    let found = search_results(e.source, r.body, r.url, in_library(e, w1), o).0;
    let data = found_list_json(found);
    lemma_told(data, 1, false, r, e.options.debug);
    let v = search_answer(e, params, w, o).0->Ok_0;
    assert(is_told(v, data, 1, false, r));
}

/// Exploring asks for the page at the address that the request names, and is
/// answered with the results of the page that comes back, all and in their order.
pub proof fn law_explore_is_answered(
    e: EnvV,
    params: JsonV,
    rule: Seq<char>,
    page: i32,
    r: HttpV,
    w: World,
    w1: World,
    o: Oracle,
)
    requires
        needed_text(params, "url"@) == Ok::<Seq<char>, ErrorV>(rule),
        page_of(params) == Ok::<i32, ErrorV>(page),
        rule_fetched(e, rule, seq![], page, w, o) == (Ok::<HttpV, ErrorV>(r), w1),
    ensures
        ({
            let found = page_results(e.source, explore_rule(e.source), r.body, r.url, in_library(e, w1), o).0;
            let got = explore_answer(e, params, w, o).0;
            got matches Ok(v) && exists|data: JsonV| #[trigger] is_told(v, data, 1, false, r) && lists_results(data, found)
        }),
{
    reveal(explore_read);
    let found = page_results(e.source, explore_rule(e.source), r.body, r.url, in_library(e, w1), o).0;
    let data = found_list_json(found);
    lemma_told(data, 1, false, r, e.options.debug);
    let v = explore_answer(e, params, w, o).0->Ok_0;
    assert(is_told(v, data, 1, false, r));
}

/// A book is asked for at the address that the request names, and answered as
/// the page that comes back describes it, at that address.
pub proof fn law_book_is_answered(
    e: EnvV,
    params: JsonV,
    url: Seq<char>,
    r: HttpV,
    w: World,
    w1: World,
    o: Oracle,
)
    requires
        needed_text(params, "url"@) == Ok::<Seq<char>, ErrorV>(url),
        rule_fetched(e, url, seq![], 1, w, o) == (Ok::<HttpV, ErrorV>(r), w1),
    ensures
        ({
            let b = source_book(e.source, r.body, r.url, url, None, None, in_library(e, w1), o).0;
            let got = info_answer(e, params, w, o).0;
            got matches Ok(v) && is_told(v, fresh_book_json(b), 1, false, r)
        }),
{
    reveal(book_read);
    let b = source_book(e.source, r.body, r.url, url, None, None, in_library(e, w1), o).0;
    lemma_told(fresh_book_json(b), 1, false, r, e.options.debug);
}

/// Whether a value lists chapters, all and in their order.
pub open spec fn lists_chapters(v: JsonV, chapters: Seq<ChapterV>) -> bool {
    v matches JsonV::Array(list) && list.len() == chapters.len() && forall|i: int|
        0 <= i < list.len() ==> #[trigger] list[i] == chapter_json(chapters[i])
}

/// Whether an answer tells a table of contents.
pub open spec fn is_toc_told(answer: JsonV, data: JsonV, t: TocV) -> bool {
    &&& t.last is Some
    &&& is_told(answer, data, t.visited.len() as int, t.truncated, t.last->0)
    &&& member_of(data, "chapters"@) matches Some(list) && lists_chapters(list, t.chapters)
    &&& member_of(data, "pages"@) == Some(JsonV::Number(integer_text(t.visited.len() as int)))
    &&& member_of(data, "truncated"@) == Some(JsonV::Bool(t.truncated))
}

/// A table of contents is asked for at the address that the page of the book
/// names for it, or at the book's own where it names none, and is answered with
/// the chapters of all its pages, with how many these are and whether more were
/// left.
pub proof fn law_toc_is_answered(
    e: EnvV,
    params: JsonV,
    url: Seq<char>,
    r: HttpV,
    start: Seq<char>,
    w: World,
    w1: World,
    w2: World,
    o: Oracle,
)
    requires
        needed_text(params, "url"@) == Ok::<Seq<char>, ErrorV>(url),
        rule_fetched(e, url, seq![], 1, w, o) == (Ok::<HttpV, ErrorV>(r), w1),
        toc_answer(e, params, w, o).0 is Ok,
        match source_book(e.source, r.body, r.url, url, None, None, in_library(e, w1), o).0.toc_url {
            Some(t) => if trim_of(t).len() > 0 {
                start == t
            } else {
                start == url
            },
            None => start == url,
        },
        w2 == (World { lib: w1.lib, ..source_book(e.source, r.body, r.url, url, None, None, in_library(e, w1), o).1 }),
    ensures
        exists|t: TocV, data: JsonV| #[trigger]
            is_toc_told(toc_answer(e, params, w, o).0->Ok_0, data, t) && is_toc_of(
                t,
                e,
                start,
                w2,
                toc_answer(e, params, w, o).1,
                o,
            ),
{
    reveal(book_read);
    let b = source_book(e.source, r.body, r.url, url, None, None, in_library(e, w1), o);
    let got = toc_answer(e, params, w, o);
    assert(book_read(e, r, url, w1, o) == (b.0, w2));
    assert(crate::executor::run::toc_address(b.0, url) == start);
    let x = toc_from(e, seq![start], seq![], seq![], None, w2, o);
    assert(got.1 == x.1);
    law_toc_in_order(e, start, w2, o);
    let t = x.0->Ok_0;
    lemma_toc_told(t, e);
    let data = crate::executor::run::toc_json(t);
    assert(is_toc_told(got.0->Ok_0, data, t));
}

proof fn lemma_toc_told(t: TocV, e: EnvV)
    requires
        t.last is Some,
    ensures
        ({
            let got = crate::executor::run::toc_told(t, e);
            got is Ok && is_toc_told(got->Ok_0, crate::executor::run::toc_json(t), t)
        }),
{
    let data = crate::executor::run::toc_json(t);
    lemma_told(data, t.visited.len() as int, t.truncated, t.last->0, e.options.debug);
    reveal_strlit("chapters");
    reveal_strlit("pages");
    reveal_strlit("truncated");
    assert("chapters"@.len() == 8 && "pages"@.len() == 5 && "truncated"@.len() == 9);
    let m = data->Object_0;
    assert(data == JsonV::Object(m));
    assert(m[0].0 == "chapters"@ && m[1].0 == "pages"@ && m[2].0 == "truncated"@);
    lemma_member(m, 0);
    lemma_member(m, 1);
    lemma_member(m, 2);
    assert(lists_chapters(chapters_json(t.chapters), t.chapters));
}

/// Whether an answer tells a chapter after some replacements.
pub open spec fn is_chapter_told(answer: JsonV, data: JsonV, c: ContentV, rules: Seq<ReplaceV>) -> bool {
    &&& c.last is Some
    &&& is_told(answer, data, c.visited.len() as int, c.truncated, c.last->0)
    &&& member_of(data, "content"@) == Some(
        JsonV::Text(rules_applied(join_of(c.fragments, "\n"@), rules, rules.len() as int)),
    )
    &&& member_of(data, "pages"@) == Some(JsonV::Number(integer_text(c.visited.len() as int)))
    &&& member_of(data, "truncated"@) == Some(JsonV::Bool(c.truncated))
}

/// A chapter is asked for at the address that the request names, and is
/// answered with the texts of all its pages, one after the other, after the
/// replacements that the request asks for, with how many pages these are and
/// whether more were left.
pub proof fn law_chapter_is_answered(
    e: EnvV,
    params: JsonV,
    url: Seq<char>,
    rules: Seq<ReplaceV>,
    w: World,
    o: Oracle,
)
    requires
        needed_text(params, "url"@) == Ok::<Seq<char>, ErrorV>(url),
        content_answer(e, params, Ok(rules), w, o).0 is Ok,
    ensures
        exists|c: ContentV, data: JsonV| #[trigger]
            is_chapter_told(content_answer(e, params, Ok(rules), w, o).0->Ok_0, data, c, rules) && is_content_of(
                c,
                e,
                url,
                w,
                content_answer(e, params, Ok(rules), w, o).1,
                o,
            ),
{
    let got = content_answer(e, params, Ok(rules), w, o);
    let x = content_from(e, url, seq![], seq![], None, None, w, o);
    law_content_in_order(e, url, w, o);
    let c = x.0->Ok_0;
    lemma_content_told(c, rules, e);
    let data = crate::executor::run::content_json(c, rules);
    assert(is_chapter_told(got.0->Ok_0, data, c, rules));
}

proof fn lemma_content_told(c: ContentV, rules: Seq<ReplaceV>, e: EnvV)
    requires
        c.last is Some,
    ensures
        ({
            let got = crate::executor::run::content_told(c, rules, e);
            got is Ok && is_chapter_told(got->Ok_0, crate::executor::run::content_json(c, rules), c, rules)
        }),
{
    let data = crate::executor::run::content_json(c, rules);
    lemma_told(data, c.visited.len() as int, c.truncated, c.last->0, e.options.debug);
    reveal_strlit("content");
    reveal_strlit("pages");
    reveal_strlit("truncated");
    assert("content"@.len() == 7 && "pages"@.len() == 5 && "truncated"@.len() == 9);
    let m = data->Object_0;
    assert(data == JsonV::Object(m));
    assert(m[0].0 == "content"@ && m[1].0 == "pages"@ && m[2].0 == "truncated"@);
    lemma_member(m, 0);
    lemma_member(m, 1);
    lemma_member(m, 2);
}

/// A page of a table of contents has the chapters and the further pages that
/// the rule of the source finds on the page that comes back.
pub proof fn law_toc_page_is_read(e: EnvV, url: Seq<char>, r: HttpV, w: World, w1: World, o: Oracle)
    requires
        rule_fetched(e, url, seq![], 1, w, o) == (Ok::<HttpV, ErrorV>(r), w1),
    ensures
        ({
            let page = source_toc(toc_rule(e.source), r.body, r.url, book_context(None, None), in_library(e, w1), o);
            let got = toc_read(e, url, w, o);
            got.0 matches Ok(p) && p.response == r && p.chapters == page.0.0 && p.next == page.0.1 && got.1 == (World {
                lib: w1.lib,
                ..page.1
            })
        }),
{
    reveal(toc_read);
}

/// A page of a chapter has the text, and names the page after it, that the rule
/// of the source finds on the page that comes back.
pub proof fn law_chapter_page_is_read(e: EnvV, url: Seq<char>, r: HttpV, w: World, w1: World, o: Oracle)
    requires
        rule_fetched(e, url, seq![], 1, w, o) == (Ok::<HttpV, ErrorV>(r), w1),
    ensures
        ({
            let c = content_context(None, None, None, None);
            let rule = content_rule(e.source);
            let text = chapter_text(rule, r.body, r.url, c, in_library(e, w1), o);
            let w2 = World { lib: w1.lib, ..text.1 };
            let next = next_content_page(rule, r.body, r.url, c, in_library(e, w2), o);
            let got = content_read(e, url, w, o);
            got.0 matches Ok(p) && p.response == r && p.text == text.0 && p.next == next.0 && got.1 == (World {
                lib: w1.lib,
                ..next.1
            })
        }),
{
    reveal(content_read);
}

/// A page that cannot be had is no page: its fault is the answer.
pub proof fn law_fault_is_told(e: EnvV, url: Seq<char>, f: ErrorV, w: World, w1: World, o: Oracle)
    requires
        rule_fetched(e, url, seq![], 1, w, o) == (Err::<HttpV, ErrorV>(f), w1),
    ensures
        toc_read(e, url, w, o).0 is Err && toc_read(e, url, w, o).0->Err_0 == f,
        content_read(e, url, w, o).0 is Err && content_read(e, url, w, o).0->Err_0 == f,
{
    reveal(toc_read);
    reveal(content_read);
}

/// A rule for an address is read on the site of the source and fetched within
/// the limits of the request; what comes back is the response where the source
/// has no check of logins.
pub proof fn law_rule_is_fetched(e: EnvV, rule: Seq<char>, key: Seq<char>, page: i32, w: World, o: Oracle)
    requires
        trim_of(crate::parser::field::or_blank(opt_text(e.source.login_check_js))).len() == 0,
    ensures
        ({
            let q = analyzed(None, rule, key, page, e.source.book_source_url@, e.source, w, o);
            q.0 matches Ok(spec) ==> {
                let f = fetched(e.client, spec, e.options.max_response_bytes, q.1, o);
                f.0 matches Ok(r) ==> rule_fetched(e, rule, key, page, w, o) == (Ok::<HttpV, ErrorV>(r), f.1)
            }
        }),
{
    reveal(rule_fetched);
}

/// A request for an operation is answered by it.
pub proof fn law_operation_is_carried_out(
    e: EnvV,
    params: JsonV,
    rules: Result<Seq<ReplaceV>, Seq<char>>,
    w: World,
    o: Oracle,
)
    ensures
        operation_answer(e, "search"@, params, rules, w, o) == search_answer(e, params, w, o),
        operation_answer(e, "explore"@, params, rules, w, o) == explore_answer(e, params, w, o),
        operation_answer(e, "info"@, params, rules, w, o) == info_answer(e, params, w, o),
        operation_answer(e, "toc"@, params, rules, w, o) == toc_answer(e, params, w, o),
        operation_answer(e, "content"@, params, rules, w, o) == content_answer(e, params, rules, w, o),
{
    reveal_strlit("search");
    reveal_strlit("explore");
    reveal_strlit("info");
    reveal_strlit("toc");
    reveal_strlit("content");
    assert("search"@.len() == 6 && "explore"@.len() == 7 && "info"@.len() == 4 && "toc"@.len() == 3 && "content"@.len()
        == 7);
    assert("explore"@[0] == 'e' && "content"@[0] == 'c');
}

/// A parameter is taken without the white space around it, and a missing, blank
/// or other one is an error; the page is the first where none is named.
pub proof fn law_parameters_are_read(params: JsonV, key: Seq<char>, text: Seq<char>)
    ensures
        member_of(params, key) == Some(JsonV::Text(text)) && trim_of(text).len() > 0 ==> needed_text(params, key)
            == Ok::<Seq<char>, ErrorV>(trim_of(text)),
        member_of(params, key) == Some(JsonV::Text(text)) && trim_of(text).len() == 0 ==> needed_text(params, key)
            is Err,
        member_of(params, key) is None ==> needed_text(params, key) is Err,
        member_of(params, "page"@) is None ==> page_of(params) == Ok::<i32, ErrorV>(1),
{
}

} // verus!
