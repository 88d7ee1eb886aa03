//! Books and chapters as JSON.

use crate::ext::json::{
    integer_text, json_integer, json_models, lemma_array_model, lemma_object_model, member_models, put, texts_json,
    texts_value, Json, JsonV,
};
use crate::model::book::Book;
use crate::model::book_chapter::{chapter_models, BookChapter, ChapterV};
use crate::model::search::{found_books, FoundBookV, SearchBook};
use crate::parser::rule_engine::BookV;
use crate::util::chars::opt_text;
use vstd::prelude::*;
use vstd::string::*;

verus! {

/// A text, or `null`.
pub open spec fn opt_value(o: Option<Seq<char>>) -> JsonV {
    match o {
        Some(t) => JsonV::Text(t),
        None => JsonV::Null,
    }
}

pub open spec fn opt_bool_value(o: Option<bool>) -> JsonV {
    match o {
        Some(b) => JsonV::Bool(b),
        None => JsonV::Null,
    }
}

pub open spec fn opt_i32_value(o: Option<i32>) -> JsonV {
    match o {
        Some(n) => JsonV::Number(integer_text(n as int)),
        None => JsonV::Null,
    }
}

pub open spec fn opt_i64_value(o: Option<i64>) -> JsonV {
    match o {
        Some(n) => JsonV::Number(integer_text(n as int)),
        None => JsonV::Null,
    }
}

pub fn optional(o: &Option<String>) -> (r: Json)
    ensures
        r.model() == opt_value(opt_text(*o)),
{
    match o {
        Some(t) => Json::Text(t.clone()),
        None => Json::Null,
    }
}

pub fn optional_bool(o: Option<bool>) -> (r: Json)
    ensures
        r.model() == opt_bool_value(o),
{
    match o {
        Some(b) => Json::Bool(b),
        None => Json::Null,
    }
}

pub fn optional_i32(o: Option<i32>) -> (r: Json)
    ensures
        r.model() == opt_i32_value(o),
{
    match o {
        Some(n) => Json::Number(json_integer(n as i128)),
        None => Json::Null,
    }
}

pub fn optional_i64(o: Option<i64>) -> (r: Json)
    ensures
        r.model() == opt_i64_value(o),
{
    match o {
        Some(n) => Json::Number(json_integer(n as i128)),
        None => Json::Null,
    }
}

/// The members of an object, with the variables where there are any.
pub open spec fn with_variables(m: Seq<(Seq<char>, JsonV)>, variable: Option<Seq<char>>) -> Seq<(Seq<char>, JsonV)> {
    match variable {
        Some(t) => m.push(("variable"@, JsonV::Text(t))),
        None => m,
    }
}

pub fn put_variables(m: &mut Vec<(String, Json)>, variable: &Option<String>)
    ensures
        member_models(final(m)@) == with_variables(member_models(old(m)@), opt_text(*variable)),
{
    if let Some(t) = variable {
        put(m, "variable", Json::Text(t.clone()));
    }
}

/// A book, by the names of its fields.
pub open spec fn book_members(b: Book) -> Seq<(Seq<char>, JsonV)> {
    seq![
        ("name"@, JsonV::Text(b.name@)),
        ("author"@, JsonV::Text(b.author@)),
        ("bookUrl"@, JsonV::Text(b.book_url@)),
        ("origin"@, JsonV::Text(b.origin@)),
        ("originName"@, opt_value(opt_text(b.origin_name))),
        ("coverUrl"@, opt_value(opt_text(b.cover_url))),
        ("tocUrl"@, opt_value(opt_text(b.toc_url))),
        ("charset"@, opt_value(opt_text(b.charset))),
        ("customCoverUrl"@, opt_value(opt_text(b.custom_cover_url))),
        ("canUpdate"@, opt_bool_value(b.can_update)),
        ("durChapterIndex"@, opt_i32_value(b.dur_chapter_index)),
        ("durChapterPos"@, opt_i32_value(b.dur_chapter_pos)),
        ("durChapterTime"@, opt_i64_value(b.dur_chapter_time)),
        ("durChapterTitle"@, opt_value(opt_text(b.dur_chapter_title))),
        ("intro"@, opt_value(opt_text(b.intro))),
        ("latestChapterTitle"@, opt_value(opt_text(b.latest_chapter_title))),
        ("lastCheckTime"@, opt_i64_value(b.last_check_time)),
        ("totalChapterNum"@, opt_i32_value(b.total_chapter_num)),
        ("type"@, opt_i32_value(b.kind_code)),
        ("group"@, opt_i64_value(b.group)),
        ("wordCount"@, opt_value(opt_text(b.word_count))),
        ("infoHtml"@, opt_value(opt_text(b.info_html))),
        ("tocHtml"@, opt_value(opt_text(b.toc_html))),
        ("kind"@, opt_value(opt_text(b.kind))),
        ("updateTime"@, opt_value(opt_text(b.update_time))),
        ("canReName"@, opt_value(opt_text(b.can_re_name))),
        ("downloadUrls"@, opt_value(opt_text(b.download_urls))),
    ]
}

pub open spec fn book_json(b: Book) -> JsonV {
    JsonV::Object(with_variables(book_members(b), opt_text(b.variable)))
}

/// A book of which only what rules read is set.
pub open spec fn fresh_book_json(b: BookV) -> JsonV {
    JsonV::Object(
        with_variables(
            seq![
                ("name"@, JsonV::Text(b.name)),
                ("author"@, JsonV::Text(b.author)),
                ("bookUrl"@, JsonV::Text(b.book_url)),
                ("origin"@, JsonV::Text(b.origin)),
                ("originName"@, opt_value(b.origin_name)),
                ("coverUrl"@, opt_value(b.cover_url)),
                ("tocUrl"@, opt_value(b.toc_url)),
                ("charset"@, JsonV::Null),
                ("customCoverUrl"@, JsonV::Null),
                ("canUpdate"@, JsonV::Null),
                ("durChapterIndex"@, JsonV::Null),
                ("durChapterPos"@, JsonV::Null),
                ("durChapterTime"@, JsonV::Null),
                ("durChapterTitle"@, JsonV::Null),
                ("intro"@, opt_value(b.intro)),
                ("latestChapterTitle"@, opt_value(b.latest_chapter_title)),
                ("lastCheckTime"@, JsonV::Null),
                ("totalChapterNum"@, JsonV::Null),
                ("type"@, JsonV::Null),
                ("group"@, JsonV::Null),
                ("wordCount"@, opt_value(b.word_count)),
                ("infoHtml"@, JsonV::Null),
                ("tocHtml"@, JsonV::Null),
                ("kind"@, opt_value(b.kind)),
                ("updateTime"@, opt_value(b.update_time)),
                ("canReName"@, opt_value(b.can_re_name)),
                ("downloadUrls"@, opt_value(b.download_urls)),
            ],
            b.variable,
        ),
    )
}

/// A book as JSON.
pub fn book_value(book: &Book) -> (r: Json)
    ensures
        r.model() == book_json(*book),
        book.is_fresh() ==> r.model() == fresh_book_json(book.model()),
{
    broadcast use lemma_object_model;

    let mut m: Vec<(String, Json)> = Vec::new();
    assert(member_models(m@) =~= seq![]);
    put(&mut m, "name", Json::Text(book.name.clone()));
    put(&mut m, "author", Json::Text(book.author.clone()));
    put(&mut m, "bookUrl", Json::Text(book.book_url.clone()));
    put(&mut m, "origin", Json::Text(book.origin.clone()));
    put(&mut m, "originName", optional(&book.origin_name));
    put(&mut m, "coverUrl", optional(&book.cover_url));
    put(&mut m, "tocUrl", optional(&book.toc_url));
    put(&mut m, "charset", optional(&book.charset));
    put(&mut m, "customCoverUrl", optional(&book.custom_cover_url));
    put(&mut m, "canUpdate", optional_bool(book.can_update));
    put(&mut m, "durChapterIndex", optional_i32(book.dur_chapter_index));
    put(&mut m, "durChapterPos", optional_i32(book.dur_chapter_pos));
    put(&mut m, "durChapterTime", optional_i64(book.dur_chapter_time));
    put(&mut m, "durChapterTitle", optional(&book.dur_chapter_title));
    put(&mut m, "intro", optional(&book.intro));
    put(&mut m, "latestChapterTitle", optional(&book.latest_chapter_title));
    put(&mut m, "lastCheckTime", optional_i64(book.last_check_time));
    put(&mut m, "totalChapterNum", optional_i32(book.total_chapter_num));
    put(&mut m, "type", optional_i32(book.kind_code));
    put(&mut m, "group", optional_i64(book.group));
    put(&mut m, "wordCount", optional(&book.word_count));
    put(&mut m, "infoHtml", optional(&book.info_html));
    put(&mut m, "tocHtml", optional(&book.toc_html));
    put(&mut m, "kind", optional(&book.kind));
    put(&mut m, "updateTime", optional(&book.update_time));
    put(&mut m, "canReName", optional(&book.can_re_name));
    put(&mut m, "downloadUrls", optional(&book.download_urls));
    assert(member_models(m@) =~= book_members(*book));
    put_variables(&mut m, &book.variable);
    Json::Object(m)
}

/// A book of a result list.
pub open spec fn found_json(b: FoundBookV) -> JsonV {
    let m = seq![
        ("name"@, JsonV::Text(b.name)),
        ("author"@, JsonV::Text(b.author)),
        ("bookUrl"@, JsonV::Text(b.book_url)),
        ("origin"@, JsonV::Text(b.origin)),
        ("coverUrl"@, opt_value(b.cover_url)),
        ("intro"@, opt_value(b.intro)),
        ("kind"@, opt_value(b.kind)),
        ("lastChapter"@, opt_value(b.last_chapter)),
        ("updateTime"@, opt_value(b.update_time)),
        ("wordCount"@, opt_value(b.word_count)),
    ];
    let v = with_variables(m, b.variable);
    JsonV::Object(
        match b.book_source_urls {
            Some(u) => v.push(("bookSourceUrls"@, texts_json(u))),
            None => v,
        },
    )
}

pub fn found_value(book: &SearchBook) -> (r: Json)
    ensures
        r.model() == found_json(book.model()),
{
    broadcast use lemma_object_model;

    let mut m: Vec<(String, Json)> = Vec::new();
    assert(member_models(m@) =~= seq![]);
    put(&mut m, "name", Json::Text(book.name.clone()));
    put(&mut m, "author", Json::Text(book.author.clone()));
    put(&mut m, "bookUrl", Json::Text(book.book_url.clone()));
    put(&mut m, "origin", Json::Text(book.origin.clone()));
    put(&mut m, "coverUrl", optional(&book.cover_url));
    put(&mut m, "intro", optional(&book.intro));
    put(&mut m, "kind", optional(&book.kind));
    put(&mut m, "lastChapter", optional(&book.last_chapter));
    put(&mut m, "updateTime", optional(&book.update_time));
    put(&mut m, "wordCount", optional(&book.word_count));
    let ghost b = book.model();
    assert(member_models(m@) =~= seq![
        ("name"@, JsonV::Text(b.name)),
        ("author"@, JsonV::Text(b.author)),
        ("bookUrl"@, JsonV::Text(b.book_url)),
        ("origin"@, JsonV::Text(b.origin)),
        ("coverUrl"@, opt_value(b.cover_url)),
        ("intro"@, opt_value(b.intro)),
        ("kind"@, opt_value(b.kind)),
        ("lastChapter"@, opt_value(b.last_chapter)),
        ("updateTime"@, opt_value(b.update_time)),
        ("wordCount"@, opt_value(b.word_count)),
    ]);
    put_variables(&mut m, &book.variable);
    if let Some(u) = &book.book_source_urls {
        put(&mut m, "bookSourceUrls", texts_value(u));
    }
    Json::Object(m)
}

pub open spec fn found_list_json(v: Seq<FoundBookV>) -> JsonV {
    JsonV::Array(Seq::new(v.len(), |i: int| found_json(v[i])))
}

/// A result list as JSON.
pub fn found_list_value(v: &Vec<SearchBook>) -> (r: Json)
    ensures
        r.model() == found_list_json(found_books(v@)),
{
    broadcast use lemma_array_model;

    let ghost all = found_books(v@);
    let ghost goal = Seq::new(all.len(), |i: int| found_json(all[i]));
    let mut r: Vec<Json> = Vec::new();
    let mut k: usize = 0;
    while k < v.len()
        invariant
            k <= v.len(),
            all == found_books(v@),
            goal == Seq::new(all.len(), |i: int| found_json(all[i])),
            json_models(r@) =~= goal.take(k as int),
        decreases v.len() - k,
    {
        let ghost before = json_models(r@);
        assert(all[k as int] == v@[k as int].model());
        r.push(found_value(&v[k]));
        assert(json_models(r@) =~= before.push(goal[k as int]));
        k = k + 1;
    }
    assert(goal.take(k as int) =~= goal);
    Json::Array(r)
}

/// A chapter, by the names of its fields.
pub open spec fn chapter_json(c: ChapterV) -> JsonV {
    JsonV::Object(
        with_variables(
            seq![
                ("title"@, JsonV::Text(c.title)),
                ("url"@, JsonV::Text(c.url)),
                ("index"@, JsonV::Number(integer_text(c.index as int))),
                ("tag"@, opt_value(c.tag)),
                ("isVip"@, JsonV::Bool(c.is_vip)),
                ("isPay"@, JsonV::Bool(c.is_pay)),
                ("isVolume"@, JsonV::Bool(c.is_volume)),
            ],
            c.variable,
        ),
    )
}

pub fn chapter_value(c: &BookChapter) -> (r: Json)
    ensures
        r.model() == chapter_json(c.model()),
{
    broadcast use lemma_object_model;

    let mut m: Vec<(String, Json)> = Vec::new();
    assert(member_models(m@) =~= seq![]);
    put(&mut m, "title", Json::Text(c.title.clone()));
    put(&mut m, "url", Json::Text(c.url.clone()));
    put(&mut m, "index", Json::Number(json_integer(c.index as i128)));
    put(&mut m, "tag", optional(&c.tag));
    put(&mut m, "isVip", Json::Bool(c.is_vip));
    put(&mut m, "isPay", Json::Bool(c.is_pay));
    put(&mut m, "isVolume", Json::Bool(c.is_volume));
    assert(member_models(m@) =~= seq![
        ("title"@, JsonV::Text(c.title@)),
        ("url"@, JsonV::Text(c.url@)),
        ("index"@, JsonV::Number(integer_text(c.index as int))),
        ("tag"@, opt_value(opt_text(c.tag))),
        ("isVip"@, JsonV::Bool(c.is_vip)),
        ("isPay"@, JsonV::Bool(c.is_pay)),
        ("isVolume"@, JsonV::Bool(c.is_volume)),
    ]);
    put_variables(&mut m, &c.variable);
    Json::Object(m)
}

pub open spec fn chapters_json(v: Seq<ChapterV>) -> JsonV {
    JsonV::Array(Seq::new(v.len(), |i: int| chapter_json(v[i])))
}

/// A table of contents as JSON.
pub fn chapters_value(v: &Vec<BookChapter>) -> (r: Json)
    ensures
        r.model() == chapters_json(chapter_models(v@)),
{
    broadcast use lemma_array_model;

    let ghost all = chapter_models(v@);
    let ghost goal = Seq::new(all.len(), |i: int| chapter_json(all[i]));
    let mut r: Vec<Json> = Vec::new();
    let mut k: usize = 0;
    while k < v.len()
        invariant
            k <= v.len(),
            all == chapter_models(v@),
            goal == Seq::new(all.len(), |i: int| chapter_json(all[i])),
            json_models(r@) =~= goal.take(k as int),
        decreases v.len() - k,
    {
        let ghost before = json_models(r@);
        assert(all[k as int] == v@[k as int].model());
        r.push(chapter_value(&v[k]));
        assert(json_models(r@) =~= before.push(goal[k as int]));
        k = k + 1;
    }
    assert(goal.take(k as int) =~= goal);
    Json::Array(r)
}

} // verus!
