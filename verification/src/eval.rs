//! The entries for single rules: evaluating one on a text, checking a source,
//! merging result lists, and reading a page that is already there.

use crate::executor::pages::{apply_replace_rules, rules_applied};
use crate::executor::request::described_source;
use crate::executor::values::{
    book_value, chapters_json, chapters_value, found_list_json, found_list_value, fresh_book_json, opt_value, optional,
};
use crate::ext::dom::parse_document;
use crate::ext::json::{
    json_read, json_text_of, json_to_text, lemma_object_model, member_models, put, read_json, texts_json, texts_value,
    Json, JsonV,
};
use crate::ext::urls::{percent_decode, percent_decoded, percent_encode};
use crate::model::book_source::BookSource;
use crate::model::replace_rule::{replace_models, ReplaceRule, ReplaceV};
use crate::model::search::{found_books, FoundBookV, SearchBook};
use crate::parser::field::{or_blank, text_or_blank};
use crate::parser::html::{first_of, select_text, select_text_list, text_list};
use crate::parser::java_rules::texts_text;
use crate::parser::js::{called, eval_js, page_call};
use crate::parser::markup::{clean_html, cleaned_markup, html_to_text, text_of_markup};
use crate::parser::rule_engine::{
    book_context, chapter_text, content_context, content_rule, explore_rule, lib_restored, next_content_page,
    page_results, search_results, source_book, source_toc, toc_rule, with_lib, RuleEngine,
};
use crate::parser::script::{agrees, group_log, lemma_offline_on, offline, Host, Oracle, ScriptEngine, World};
use crate::parser::source_rule::{apply_legado_regex, regex_applied};
use crate::parser::xpath::{document_strings, select_xpath};
use crate::util::bytes::percent_of;
use crate::util::chars::{
    concat, concat3, contains, contains_text, copy, copy_texts, has_prefix, is_empty_text, list_contains, opt_text,
    replace, replace_of, same, split, split_of, starts_with, strip_prefix, strip_prefix_of, texts, trim, trim_of,
    trim_start_matches, without_prefixes,
};
use vstd::prelude::*;
use vstd::string::*;
use vstd::utf8::encode_utf8;

verus! {

/// What an evaluation needs beside its rule and its text.
#[derive(Debug, Clone, Copy, PartialEq, Eq, Structural)]
pub enum EvalNeed {
    Nothing,
    /// The version of the program.
    Version,
    /// A new identifier.
    Uuid,
    /// Sixteen random hexadecimal digits.
    AndroidId,
    /// The books that the text lists, decoded.
    Books,
    /// The source that the text describes, decoded.
    Source,
    /// The replacements that the rule lists, decoded.
    Rules,
}

pub open spec fn need_of(rule: Seq<char>) -> EvalNeed {
    let r = trim_of(rule);
    if r == "@version"@ {
        EvalNeed::Version
    } else if r == "@uuid"@ {
        EvalNeed::Uuid
    } else if r == "@android_id"@ {
        EvalNeed::AndroidId
    } else if r == "@merge"@ {
        EvalNeed::Books
    } else if r == "@validate"@ {
        EvalNeed::Source
    } else if !is_exclusion(r) && has_prefix(r, "["@) {
        EvalNeed::Rules
    } else {
        EvalNeed::Nothing
    }
}

/// Whether a rule takes something out of a text.
pub open spec fn is_exclusion(r: Seq<char>) -> bool {
    contains_text(r, " -"@) || has_prefix(r, "-"@)
}

/// Tells what an evaluation needs beside its rule and its text.
pub fn eval_need(rule: &str) -> (r: EvalNeed)
    ensures
        r == need_of(rule@),
{
    let t = trim(rule);
    let s = t.as_str();
    if same(s, "@version") {
        EvalNeed::Version
    } else if same(s, "@uuid") {
        EvalNeed::Uuid
    } else if same(s, "@android_id") {
        EvalNeed::AndroidId
    } else if same(s, "@merge") {
        EvalNeed::Books
    } else if same(s, "@validate") {
        EvalNeed::Source
    } else if !(contains(s, " -") || starts_with(s, "-")) && starts_with(s, "[") {
        EvalNeed::Rules
    } else {
        EvalNeed::Nothing
    }
}

/// What an evaluation was given beside its rule and its text.
pub struct EvalExtra {
    /// The version, the identifier or the digits that were asked for.
    pub text: String,
    pub books: Option<Vec<SearchBook>>,
    pub source: Result<BookSource, String>,
    pub rules: Option<Vec<ReplaceRule>>,
}

pub struct ExtraV {
    pub text: Seq<char>,
    pub books: Option<Seq<FoundBookV>>,
    pub source: Result<BookSource, Seq<char>>,
    pub rules: Option<Seq<ReplaceV>>,
}

impl EvalExtra {
    pub open spec fn model(self) -> ExtraV {
        ExtraV {
            text: self.text@,
            books: match self.books {
                Some(v) => Some(found_books(v@)),
                None => None,
            },
            source: described_source(self.source),
            rules: match self.rules {
                Some(v) => Some(replace_models(v@)),
                None => None,
            },
        }
    }
}

/// The position of a book of that name and author, from `k` on.
pub open spec fn book_from(v: Seq<FoundBookV>, b: FoundBookV, k: int) -> Option<int>
    decreases v.len() - k,
{
    if k < 0 || k >= v.len() {
        None
    } else if v[k].name == b.name && v[k].author == b.author {
        Some(k)
    } else {
        book_from(v, b, k + 1)
    }
}

/// The sources of a book, with one more where it is not among them.
pub open spec fn with_source(b: FoundBookV, origin: Seq<char>) -> Seq<Seq<char>> {
    let urls = match b.book_source_urls {
        Some(u) => u,
        None => seq![b.origin],
    };
    if urls.contains(origin) {
        urls
    } else {
        urls.push(origin)
    }
}

/// The first `n` books, those of one name and author as one with all their sources.
pub open spec fn merged_books(v: Seq<FoundBookV>, n: int) -> Seq<FoundBookV>
    decreases n,
{
    if n <= 0 {
        seq![]
    } else {
        let before = merged_books(v, n - 1);
        let b = v[n - 1];
        match book_from(before, b, 0) {
            Some(k) => before.update(
                k,
                FoundBookV { book_source_urls: Some(with_source(before[k], b.origin)), ..before[k] },
            ),
            None => before.push(FoundBookV { book_source_urls: Some(seq![b.origin]), ..b }),
        }
    }
}

fn copy_opt(o: &Option<String>) -> (r: Option<String>)
    ensures
        opt_text(r) == opt_text(*o),
{
    match o {
        Some(s) => Some(s.clone()),
        None => None,
    }
}

pub fn book_with_sources(b: &SearchBook, urls: Vec<String>) -> (r: SearchBook)
    ensures
        r.model() == (FoundBookV { book_source_urls: Some(texts(urls@)), ..b.model() }),
{
    SearchBook {
        name: b.name.clone(),
        author: b.author.clone(),
        book_url: b.book_url.clone(),
        origin: b.origin.clone(),
        cover_url: copy_opt(&b.cover_url),
        intro: copy_opt(&b.intro),
        kind: copy_opt(&b.kind),
        last_chapter: copy_opt(&b.last_chapter),
        update_time: copy_opt(&b.update_time),
        word_count: copy_opt(&b.word_count),
        variable: copy_opt(&b.variable),
        book_source_urls: Some(urls),
    }
}

pub fn find_book(v: &Vec<SearchBook>, b: &SearchBook) -> (r: Option<usize>)
    ensures
        match r {
            Some(k) => k < v.len() && book_from(found_books(v@), b.model(), 0) == Some(k as int),
            None => book_from(found_books(v@), b.model(), 0) is None,
        },
{
    let ghost all = found_books(v@);
    let mut k: usize = 0;
    while k < v.len()
        invariant
            k <= v.len(),
            all == found_books(v@),
            book_from(all, b.model(), 0) == book_from(all, b.model(), k as int),
        decreases v.len() - k,
    {
        assert(all[k as int] == v@[k as int].model());
        if same(v[k].name.as_str(), b.name.as_str()) && same(v[k].author.as_str(), b.author.as_str()) {
            return Some(k);
        }
        k = k + 1;
    }
    None
}

pub fn add_source(b: &SearchBook, origin: &str) -> (r: Vec<String>)
    ensures
        texts(r@) == with_source(b.model(), origin@),
{
    let mut urls = match &b.book_source_urls {
        Some(u) => copy_texts(u),
        None => {
            let mut one: Vec<String> = Vec::new();
            one.push(b.origin.clone());
            assert(texts(one@) =~= seq![b.origin@]);
            one
        },
    };
    if !list_contains(&urls, origin) {
        let ghost before = texts(urls@);
        urls.push(copy(origin));
        assert(texts(urls@) =~= before.push(origin@));
    }
    urls
}

/// Merges result lists: the books of one name and author become one, with the
/// sources of all of them.
pub fn merge_search_results(books: &Vec<SearchBook>) -> (r: Vec<SearchBook>)
    ensures
        found_books(r@) == merged_books(found_books(books@), books.len() as int),
{
    let ghost all = found_books(books@);
    let mut r: Vec<SearchBook> = Vec::new();
    let mut n: usize = 0;
    assert(found_books(r@) =~= seq![]);
    while n < books.len()
        invariant
            n <= books.len(),
            all == found_books(books@),
            found_books(r@) == merged_books(all, n as int),
        decreases books.len() - n,
    {
        let ghost before = found_books(r@);
        assert(all[n as int] == books@[n as int].model());
        match find_book(&r, &books[n]) {
            Some(k) => {
                assert(before[k as int] == r@[k as int].model());
                let urls = add_source(&r[k], books[n].origin.as_str());
                let b = book_with_sources(&r[k], urls);
                let ghost x = b.model();
                r.set(k, b);
                assert(found_books(r@) =~= before.update(k as int, x));
            },
            None => {
                let mut urls: Vec<String> = Vec::new();
                urls.push(books[n].origin.clone());
                assert(texts(urls@) =~= seq![books@[n as int].origin@]);
                let b = book_with_sources(&books[n], urls);
                let ghost x = b.model();
                r.push(b);
                assert(found_books(r@) =~= before.push(x));
            },
        }
        n = n + 1;
    }
    r
}

/// Whether no two books have the same name and author.
pub open spec fn books_distinct(v: Seq<FoundBookV>) -> bool {
    forall|i: int, j: int|
        0 <= i < j < v.len() ==> (#[trigger] v[i]).name != (#[trigger] v[j]).name || v[i].author != v[j].author
}

proof fn lemma_book_from(v: Seq<FoundBookV>, b: FoundBookV, k: int)
    requires
        0 <= k <= v.len(),
    ensures
        match book_from(v, b, k) {
            Some(i) => k <= i < v.len() && v[i].name == b.name && v[i].author == b.author,
            None => forall|i: int| k <= i < v.len() ==> (#[trigger] v[i]).name != b.name || v[i].author != b.author,
        },
    decreases v.len() - k,
{
    if k < v.len() && !(v[k].name == b.name && v[k].author == b.author) {
        lemma_book_from(v, b, k + 1);
    }
}

/// Merged books are distinct, and each book is among them.
pub proof fn lemma_merged(v: Seq<FoundBookV>, n: int)
    requires
        0 <= n <= v.len(),
    ensures
        books_distinct(merged_books(v, n)),
        forall|i: int| 0 <= i < n ==> has_book(merged_books(v, n), #[trigger] v[i]),
        forall|i: int|
            0 <= i < merged_books(v, n).len() ==> (#[trigger] merged_books(v, n)[i]).book_source_urls is Some,
    decreases n,
{
    if n > 0 {
        lemma_merged(v, n - 1);
        let before = merged_books(v, n - 1);
        let now = merged_books(v, n);
        let b = v[n - 1];
        lemma_book_from(before, b, 0);
        assert forall|i: int| 0 <= i < n implies has_book(now, #[trigger] v[i]) by {
            if i < n - 1 {
                assert(has_book(before, v[i]));
                let k = choose|k: int| 0 <= k < before.len() && same_book(#[trigger] before[k], v[i]);
                assert(same_book(now[k], v[i]));
            } else {
                match book_from(before, b, 0) {
                    Some(k) => {
                        assert(same_book(now[k], b));
                    },
                    None => {
                        assert(same_book(now[before.len() as int], b));
                    },
                }
            }
        }
    }
}

pub open spec fn same_book(a: FoundBookV, b: FoundBookV) -> bool {
    a.name == b.name && a.author == b.author
}

pub open spec fn has_book(v: Seq<FoundBookV>, b: FoundBookV) -> bool {
    exists|k: int| 0 <= k < v.len() && same_book(#[trigger] v[k], b)
}

/// Merging result lists leaves no two books of one name and author, and loses none.
pub proof fn law_merged_books_distinct(v: Seq<FoundBookV>, i: int)
    requires
        0 <= i < v.len(),
    ensures
        books_distinct(merged_books(v, v.len() as int)),
        has_book(merged_books(v, v.len() as int), v[i]),
{
    lemma_merged(v, v.len() as int);
}

/// What is wrong with a source.
pub open spec fn source_errors(raw: Seq<char>, described: Result<BookSource, Seq<char>>) -> Seq<Seq<char>> {
    match json_read(raw) {
        Err(e) => seq!["Invalid Source JSON: "@ + e],
        Ok(_) => match described {
            Err(e) => seq!["Invalid Source: "@ + e],
            Ok(s) => {
                let none: Seq<Seq<char>> = seq![];
                let url = if trim_of(s.book_source_url@).len() == 0 {
                    none.push("bookSourceUrl is empty"@)
                } else {
                    none
                };
                if trim_of(s.book_source_name@).len() == 0 {
                    url.push("bookSourceName is empty"@)
                } else {
                    url
                }
            },
        },
    }
}

/// The answer to checking a source.
pub open spec fn validation_json(errors: Seq<Seq<char>>) -> JsonV {
    JsonV::Object(seq![("valid"@, JsonV::Bool(errors.len() == 0)), ("errors"@, texts_json(errors))])
}

pub fn push_error(v: &mut Vec<String>, t: String)
    ensures
        texts(final(v)@) == texts(old(v)@).push(t@),
{
    let ghost before = texts(v@);
    let ghost x = t@;
    v.push(t);
    assert(texts(v@) =~= before.push(x));
}

/// Checks a source; the answer is JSON.
pub fn validate_source(raw: &str, described: Result<BookSource, String>) -> (r: String)
    ensures
        r@ == json_text_of(validation_json(source_errors(raw@, described_source(described)))),
{
    broadcast use lemma_object_model;

    let mut errors: Vec<String> = Vec::new();
    assert(texts(errors@) =~= seq![]);
    match read_json(raw) {
        Err(e) => {
            push_error(&mut errors, concat("Invalid Source JSON: ", e.as_str()));
            assert(texts(errors@) =~= seq!["Invalid Source JSON: "@ + e@]);
        },
        Ok(_) => match &described {
            Err(e) => {
                push_error(&mut errors, concat("Invalid Source: ", e.as_str()));
                assert(texts(errors@) =~= seq!["Invalid Source: "@ + e@]);
            },
            Ok(s) => {
                if is_empty_text(trim(s.book_source_url.as_str()).as_str()) {
                    push_error(&mut errors, "bookSourceUrl is empty".to_owned());
                }
                if is_empty_text(trim(s.book_source_name.as_str()).as_str()) {
                    push_error(&mut errors, "bookSourceName is empty".to_owned());
                }
            },
        },
    }
    let ghost all = source_errors(raw@, described_source(described));
    assert(texts(errors@) =~= all);
    assert(all.len() == errors.len());
    let mut m: Vec<(String, Json)> = Vec::new();
    assert(member_models(m@) =~= seq![]);
    put(&mut m, "valid", Json::Bool(errors.len() == 0));
    put(&mut m, "errors", texts_value(&errors));
    assert(member_models(m@) =~= validation_json(all)->Object_0);
    json_to_text(&Json::Object(m))
}

/// The script of a rule that is marked as one.
pub open spec fn marked_js(rule: Seq<char>) -> Option<Seq<char>> {
    match strip_prefix_of(rule, "@js:"@) {
        Some(s) => Some(s),
        None => match strip_prefix_of(rule, "js:"@) {
            Some(s) => Some(s),
            None => strip_prefix_of(rule, "<js>"@),
        },
    }
}

pub fn strip_js_prefix(rule: &str) -> (r: Option<String>)
    ensures
        opt_text(r) == marked_js(rule@),
{
    if let Some(s) = strip_prefix(rule, "@js:") {
        return Some(s);
    }
    if let Some(s) = strip_prefix(rule, "js:") {
        return Some(s);
    }
    strip_prefix(rule, "<js>")
}

/// What is taken out of a text by a part of a rule.
pub open spec fn exclusion_of(part: Seq<char>) -> Seq<char> {
    trim_of(without_prefixes(trim_of(part), "-"@))
}

/// A text without what the parts from `k` to `n` take out.
pub open spec fn excluded(text: Seq<char>, parts: Seq<Seq<char>>, k: int, n: int) -> Seq<char>
    decreases n - k,
{
    if n <= k {
        text
    } else {
        let before = excluded(text, parts, k, n - 1);
        let x = exclusion_of(parts[n - 1]);
        if x.len() > 0 {
            regex_applied(before, x)
        } else {
            before
        }
    }
}

/// What a rule that takes something out starts from, and leaves.
pub open spec fn exclusion_value(input: Seq<char>, rule: Seq<char>) -> Seq<char> {
    let parts = split_of(rule, " -"@);
    let target = trim_of(parts[0]);
    let start = if target.len() > 0 && !has_prefix(target, "-"@) {
        match first_of(text_list(input, target + "@outerHtml"@)) {
            Some(t) => t,
            None => input,
        }
    } else {
        input
    };
    let first: int = if has_prefix(target, "-"@) {
        0
    } else {
        1
    };
    excluded(start, parts, first, parts.len() as int)
}

pub fn exclude(input: &str, rule: &str) -> (r: String)
    ensures
        r@ == exclusion_value(input@, rule@),
{
    proof {
        reveal_strlit(" -");
        reveal_strlit("-");
    }
    let parts = split(rule, " -");
    let ghost all = split_of(rule@, " -"@);
    assert(all[0] == parts@[0]@);
    let target = trim(parts[0].as_str());
    let skips = starts_with(target.as_str(), "-");
    let mut out = if !is_empty_text(target.as_str()) && !skips {
        let doc = parse_document(input);
        match select_text(&doc, concat(target.as_str(), "@outerHtml").as_str()) {
            Some(t) => t,
            None => copy(input),
        }
    } else {
        copy(input)
    };
    let ghost start = out@;
    let first: usize = if skips {
        0
    } else {
        1
    };
    let mut k: usize = first;
    while k < parts.len()
        invariant
            first <= k,
            k <= parts.len() || k == first,
            all == texts(parts@),
            "-"@.len() > 0,
            out@ == excluded(start, all, first as int, k as int),
        decreases parts.len() - k,
    {
        assert(all[k as int] == parts@[k as int]@);
        let x = trim(trim_start_matches(trim(parts[k].as_str()).as_str(), "-").as_str());
        if !is_empty_text(x.as_str()) {
            out = apply_legado_regex(out.as_str(), x.as_str());
        }
        k = k + 1;
    }
    assert(all.len() == parts.len());
    out
}

/// What a rule gives on a text.
pub open spec fn eval_answer(input: Seq<char>, rule: Seq<char>, x: ExtraV, w: World, o: Oracle) -> (Seq<char>, World) {
    let r = trim_of(rule);
    if r == "@version"@ || r == "@uuid"@ || r == "@android_id"@ {
        (x.text, w)
    } else if r == "@encode"@ {
        (percent_of(encode_utf8(input)), w)
    } else if r == "@decode"@ {
        (or_blank(percent_decoded(input)), w)
    } else if r == "@clean"@ {
        (cleaned_markup(input), w)
    } else if r == "@text"@ {
        (text_of_markup(input), w)
    } else if r == "@merge"@ {
        (
            match x.books {
                Some(v) => json_text_of(found_list_json(merged_books(v, v.len() as int))),
                None => "[]"@,
            },
            w,
        )
    } else if r == "@validate"@ {
        (json_text_of(validation_json(source_errors(input, x.source))), w)
    } else if is_exclusion(r) {
        (exclusion_value(input, r), w)
    } else if has_prefix(r, "##"@) {
        (regex_applied(input, r), w)
    } else if has_prefix(r, "["@) {
        (
            match x.rules {
                Some(v) => rules_applied(input, v, v.len() as int),
                None => input,
            },
            w,
        )
    } else {
        match marked_js(r) {
            Some(script) => {
                let y = called(page_call(script, input, ""@, None, false), w, o);
                (
                    match y.0 {
                        Ok(t) => t,
                        Err(e) => "{\"error\":\"JS Eval Failed: "@ + e + "\"}"@,
                    },
                    y.1,
                )
            },
            None => if has_prefix(r, "//"@) {
                let y = document_strings(input, r, false, w, o);
                (texts_text(y.0), y.1)
            } else {
                (texts_text(text_list(input, r)), w)
            },
        }
    }
}

/// Evaluates a rule on a text. Rules are commands that start with `@`, exclusions,
/// replacements, scripts, XPaths, and selectors.
pub fn reader_eval<E: ScriptEngine>(input: &str, rule: &str, extra: EvalExtra, host: &mut Host<E>) -> (r: String)
    ensures
        offline(old(host).log(), final(host).log()),
        forall|o: Oracle| #[trigger]
            agrees(final(host).log(), o) ==> eval_answer(input@, rule@, extra.model(), old(host).world(), o) == (
                r@,
                final(host).world(),
            ),
{
    broadcast use group_log;

    let trimmed = trim(rule);
    let t = trimmed.as_str();
    if same(t, "@version") || same(t, "@uuid") || same(t, "@android_id") {
        return extra.text;
    }
    if same(t, "@encode") {
        return percent_encode(input);
    }
    if same(t, "@decode") {
        return text_or_blank(percent_decode(input));
    }
    if same(t, "@clean") {
        return clean_html(input);
    }
    if same(t, "@text") {
        return html_to_text(input);
    }
    if same(t, "@merge") {
        return match &extra.books {
            Some(v) => {
                assert(found_books(v@).len() == v.len());
                json_to_text(&found_list_value(&merge_search_results(v)))
            },
            None => "[]".to_owned(),
        };
    }
    if same(t, "@validate") {
        return validate_source(input, extra.source);
    }
    if contains(t, " -") || starts_with(t, "-") {
        return exclude(input, t);
    }
    if starts_with(t, "##") {
        return apply_legado_regex(input, t);
    }
    if starts_with(t, "[") {
        return match &extra.rules {
            Some(v) => {
                assert(replace_models(v@).len() == v.len());
                apply_replace_rules(input, v)
            },
            None => copy(input),
        };
    }
    if let Some(script) = strip_js_prefix(t) {
        return match eval_js(script.as_str(), input, "", host) {
            Ok(x) => x,
            Err(e) => concat3("{\"error\":\"JS Eval Failed: ", e.as_str(), "\"}"),
        };
    }
    if starts_with(t, "//") {
        return json_to_text(&texts_value(&select_xpath(input, t, host)));
    }
    let doc = parse_document(input);
    json_to_text(&texts_value(&select_text_list(&doc, t)))
}

/// What reading a page by the rules of a source gives.
pub open spec fn page_read(source: BookSource, body: Seq<char>, base: Seq<char>, mode: Seq<char>, w: World, o: Oracle) -> (
    JsonV,
    World,
) {
    let v = with_lib(w, opt_text(source.js_lib));
    if mode == "search"@ {
        let x = lib_restored(search_results(source, body, base, v, o), w);
        (found_list_json(x.0), x.1)
    } else if mode == "explore"@ {
        let x = lib_restored(page_results(source, explore_rule(source), body, base, v, o), w);
        (found_list_json(x.0), x.1)
    } else if mode == "info"@ {
        let x = lib_restored(source_book(source, body, base, base, None, None, v, o), w);
        (fresh_book_json(x.0), x.1)
    } else if mode == "toc"@ || mode == "chapter"@ {
        let x = lib_restored(source_toc(toc_rule(source), body, base, book_context(None, None), v, o), w);
        let (chapters, next) = x.0;
        (
            JsonV::Object(seq![("chapters"@, chapters_json(chapters)), ("nextUrls"@, texts_json(next))]),
            x.1,
        )
    } else if mode == "content"@ {
        let c = content_context(None, None, None, None);
        let x = lib_restored(chapter_text(content_rule(source), body, base, c, v, o), w);
        let y = lib_restored(
            next_content_page(content_rule(source), body, base, c, with_lib(x.1, opt_text(source.js_lib)), o),
            x.1,
        );
        (JsonV::Object(seq![("content"@, JsonV::Text(x.0)), ("nextUrl"@, opt_value(y.0))]), y.1)
    } else {
        (JsonV::Object(seq![("error"@, JsonV::Text("unknown mode: "@ + mode))]), w)
    }
}

pub fn read_toc_page<E: ScriptEngine>(source: &BookSource, body: &str, base: &str, host: &mut Host<E>) -> (r: Json)
    ensures
        offline(old(host).log(), final(host).log()),
        forall|o: Oracle| #[trigger]
            agrees(final(host).log(), o) ==> page_read(*source, body@, base@, "toc"@, old(host).world(), o) == (
                r.model(),
                final(host).world(),
            ),
{
    broadcast use lemma_object_model;

    proof {
        reveal_strlit("search");
        reveal_strlit("explore");
        reveal_strlit("info");
        reveal_strlit("toc");
    }
    let (chapters, next) = RuleEngine.chapter_list(source, body, base, host);
    let ghost c = chapters_json(crate::model::book_chapter::chapter_models(chapters@));
    let ghost n = texts_json(texts(next@));
    let mut m: Vec<(String, Json)> = Vec::new();
    assert(member_models(m@) =~= seq![]);
    put(&mut m, "chapters", chapters_value(&chapters));
    put(&mut m, "nextUrls", texts_value(&next));
    assert(member_models(m@) =~= seq![("chapters"@, c), ("nextUrls"@, n)]);
    assert("toc"@.len() == 3 && "search"@.len() == 6 && "explore"@.len() == 7 && "info"@.len() == 4);
    Json::Object(m)
}

pub fn read_content_page<E: ScriptEngine>(source: &BookSource, body: &str, base: &str, host: &mut Host<E>) -> (r: Json)
    ensures
        offline(old(host).log(), final(host).log()),
        forall|o: Oracle| #[trigger]
            agrees(final(host).log(), o) ==> ({
                let w = old(host).world();
                let lib = opt_text(source.js_lib);
                let c = content_context(None, None, None, None);
                let x = lib_restored(chapter_text(content_rule(*source), body@, base@, c, with_lib(w, lib), o), w);
                let y = lib_restored(
                    next_content_page(content_rule(*source), body@, base@, c, with_lib(x.1, lib), o),
                    x.1,
                );
                (JsonV::Object(seq![("content"@, JsonV::Text(x.0)), ("nextUrl"@, opt_value(y.0))]), y.1)
            }) == (r.model(), final(host).world()),
{
    broadcast use group_log;
    broadcast use lemma_object_model;

    let text = RuleEngine.content(source, body, base, host);
    let ghost log1 = host.log();
    let next = RuleEngine.next_content_url(source, body, base, host);
    proof {
        lemma_offline_on(old(host).log(), log1, host.log());
        assert forall|o: Oracle| #[trigger] agrees(host.log(), o) implies agrees(log1, o) by {}
    }
    let ghost t = text@;
    let ghost n = opt_value(opt_text(next));
    let mut m: Vec<(String, Json)> = Vec::new();
    assert(member_models(m@) =~= seq![]);
    put(&mut m, "content", Json::Text(text));
    put(&mut m, "nextUrl", optional(&next));
    assert(member_models(m@) =~= seq![("content"@, JsonV::Text(t)), ("nextUrl"@, n)]);
    Json::Object(m)
}

pub fn read_page<E: ScriptEngine>(source: &BookSource, body: &str, base: &str, mode: &str, host: &mut Host<E>) -> (r: Json)
    ensures
        offline(old(host).log(), final(host).log()),
        forall|o: Oracle| #[trigger]
            agrees(final(host).log(), o) ==> page_read(*source, body@, base@, mode@, old(host).world(), o) == (
                r.model(),
                final(host).world(),
            ),
{
    broadcast use group_log;
    broadcast use lemma_object_model;

    if same(mode, "search") {
        let v = RuleEngine.search_books(source, body, base, host);
        return found_list_value(&v);
    }
    if same(mode, "explore") {
        let v = RuleEngine.explore_books(source, body, base, host);
        return found_list_value(&v);
    }
    if same(mode, "info") {
        let b = RuleEngine.book_info(source, body, base, base, host);
        return book_value(&b);
    }
    if same(mode, "toc") || same(mode, "chapter") {
        proof {
            reveal_strlit("search");
            reveal_strlit("explore");
            reveal_strlit("info");
            reveal_strlit("toc");
            assert("toc"@.len() == 3 && "search"@.len() == 6 && "explore"@.len() == 7 && "info"@.len() == 4);
        }
        return read_toc_page(source, body, base, host);
    }
    if same(mode, "content") {
        return read_content_page(source, body, base, host);
    }
    let mut m: Vec<(String, Json)> = Vec::new();
    assert(member_models(m@) =~= seq![]);
    put(&mut m, "error", Json::Text(concat("unknown mode: ", mode)));
    assert(member_models(m@) =~= seq![("error"@, JsonV::Text("unknown mode: "@ + mode@))]);
    Json::Object(m)
}

/// The answer to reading a page that is already there.
pub open spec fn debug_answer(
    source_json: Seq<char>,
    described: Result<BookSource, Seq<char>>,
    body: Seq<char>,
    base: Seq<char>,
    mode: Seq<char>,
    w: World,
    o: Oracle,
) -> (JsonV, World) {
    match json_read(source_json) {
        Err(e) => (JsonV::Object(seq![("error"@, JsonV::Text("Invalid Source JSON: "@ + e))]), w),
        Ok(_) => match described {
            Err(e) => (JsonV::Object(seq![("error"@, JsonV::Text("Invalid Source: "@ + e))]), w),
            Ok(source) => {
                let x = page_read(source, body, base, mode, w, o);
                (
                    JsonV::Object(
                        seq![
                            ("result"@, x.0),
                            (
                                "logs"@,
                                texts_json(
                                    seq![
                                        "Debug mode is active. Detailed RuleEngine traces are not implemented yet."@,
                                    ],
                                ),
                            ),
                        ],
                    ),
                    x.1,
                )
            },
        },
    }
}

pub fn error_value(text: String) -> (r: Json)
    ensures
        r.model() == JsonV::Object(seq![("error"@, JsonV::Text(text@))]),
{
    broadcast use lemma_object_model;

    let ghost t = text@;
    let mut m: Vec<(String, Json)> = Vec::new();
    assert(member_models(m@) =~= seq![]);
    put(&mut m, "error", Json::Text(text));
    assert(member_models(m@) =~= seq![("error"@, JsonV::Text(t))]);
    Json::Object(m)
}

/// Reads a page that is already there by the rules of a source; sends nothing.
pub fn debug_parse<E: ScriptEngine>(
    source_json: &str,
    described: Result<BookSource, String>,
    body: &str,
    base_url: &str,
    mode: &str,
    host: &mut Host<E>,
) -> (r: String)
    ensures
        offline(old(host).log(), final(host).log()),
        forall|o: Oracle| #[trigger]
            agrees(final(host).log(), o) ==> ({
                let x = debug_answer(
                    source_json@,
                    described_source(described),
                    body@,
                    base_url@,
                    mode@,
                    old(host).world(),
                    o,
                );
                (json_text_of(x.0), x.1)
            }) == (r@, final(host).world()),
{
    broadcast use group_log;
    broadcast use lemma_object_model;

    if let Err(e) = read_json(source_json) {
        return json_to_text(&error_value(concat("Invalid Source JSON: ", e.as_str())));
    }
    let source = match described {
        Ok(s) => s,
        Err(e) => {
            return json_to_text(&error_value(concat("Invalid Source: ", e.as_str())));
        },
    };
    let result = read_page(&source, body, base_url, mode, host);
    let ghost x = result.model();
    let mut logs: Vec<String> = Vec::new();
    logs.push("Debug mode is active. Detailed RuleEngine traces are not implemented yet.".to_owned());
    assert(texts(logs@) =~= seq![
        "Debug mode is active. Detailed RuleEngine traces are not implemented yet."@,
    ]);
    let mut m: Vec<(String, Json)> = Vec::new();
    assert(member_models(m@) =~= seq![]);
    put(&mut m, "result", result);
    put(&mut m, "logs", texts_value(&logs));
    assert(member_models(m@) =~= seq![
        ("result"@, x),
        (
            "logs"@,
            texts_json(seq!["Debug mode is active. Detailed RuleEngine traces are not implemented yet."@]),
        ),
    ]);
    json_to_text(&Json::Object(m))
}

/// A text without NUL characters, each written as an escape.
pub fn without_nul(text: &str) -> (r: String)
    ensures
        r@ == replace_of(text@, "\0"@, "\\u0000"@),
{
    proof {
        reveal_strlit("\0");
    }
    replace(text, "\0", "\\u0000")
}

} // verus!
