//! What holds of merged books and of the marks of rules on texts.

use crate::eval::{
    book_from, eval_answer, has_book, lemma_merged, merged_books, same_book, source_errors, validation_json,
    with_source, ExtraV,
};
use crate::executor::answer_laws::lemma_member;
use crate::ext::json::{json_of, member_of, texts_json, JsonV};
use crate::ext::regexes::regex_replaced;
use crate::model::book_source::BookSource;
use crate::model::search::FoundBookV;
use crate::parser::java_laws::law_percent_bytes_read_back;
use crate::parser::script::{Oracle, World};
use crate::parser::text_laws::{are_steps, law_replacements_in_order};
use crate::util::bytes::percent_bytes;
use crate::util::chars::{contains_text, has_prefix, lemma_solid_ends, replace_of, trim_of};
use vstd::prelude::*;
use vstd::string::*;
use vstd::utf8::encode_utf8;

verus! {

proof fn lemma_book_from(v: Seq<FoundBookV>, b: FoundBookV, k: int)
    requires
        0 <= k <= v.len(),
    ensures
        match book_from(v, b, k) {
            Some(j) => k <= j < v.len() && same_book(v[j], b) && forall|i: int|
                k <= i < j ==> !same_book(#[trigger] v[i], b),
            None => forall|i: int| k <= i < v.len() ==> !same_book(#[trigger] v[i], b),
        },
    decreases v.len() - k,
{
    if k < v.len() && !same_book(v[k], b) {
        lemma_book_from(v, b, k + 1);
    }
}

/// Whether one of some books is of the name and author of a book and has an origin.
pub open spec fn comes_from(u: Seq<char>, m: FoundBookV, v: Seq<FoundBookV>, n: int) -> bool {
    exists|j: int| 0 <= j < n && same_book(#[trigger] v[j], m) && v[j].origin == u
}

/// Whether the sources of a book are those of all books of its name and author.
pub open spec fn has_all_sources(m: FoundBookV, v: Seq<FoundBookV>, n: int) -> bool {
    &&& m.book_source_urls is Some
    &&& forall|u: Seq<char>| #[trigger] m.book_source_urls->0.contains(u) <==> comes_from(u, m, v, n)
}

/// Whether a merged book is the book at `i` but for its sources, and none before
/// that is of its name and author.
pub open spec fn is_first_book(m: FoundBookV, v: Seq<FoundBookV>, i: int, n: int) -> bool {
    &&& 0 <= i < n
    &&& m == (FoundBookV { book_source_urls: m.book_source_urls, ..v[i] })
    &&& forall|j: int| 0 <= j < i ==> !same_book(#[trigger] v[j], v[i])
}

/// Whether a merged book is the first of its name and author among some, with
/// the sources of all of these and of no others.
pub open spec fn is_merged_of(m: FoundBookV, v: Seq<FoundBookV>, n: int) -> bool {
    has_all_sources(m, v, n) && exists|i: int| #[trigger] is_first_book(m, v, i, n)
}

proof fn lemma_source_added(old: FoundBookV, m: FoundBookV, v: Seq<FoundBookV>, n: int)
    requires
        0 < n <= v.len(),
        has_all_sources(old, v, n - 1),
        same_book(v[n - 1], old),
        m == (FoundBookV { book_source_urls: Some(with_source(old, v[n - 1].origin)), ..old }),
    ensures
        has_all_sources(m, v, n),
{
    let urls = old.book_source_urls->0;
    let more = m.book_source_urls->0;
    let b = v[n - 1];
    assert forall|u: Seq<char>| #[trigger] more.contains(u) <==> comes_from(u, m, v, n) by {
        if urls.contains(u) {
            let p = choose|p: int| 0 <= p < urls.len() && urls[p] == u;
            assert(more[p] == u);
        }
        if u == b.origin && !urls.contains(u) {
            assert(more[more.len() - 1] == u);
        }
        if more.contains(u) && u != b.origin {
            let p = choose|p: int| 0 <= p < more.len() && more[p] == u;
            assert(urls[p] == u);
        }
        assert(more.contains(u) <==> urls.contains(u) || u == b.origin);
        if comes_from(u, old, v, n - 1) {
            let j = choose|j: int| 0 <= j < n - 1 && same_book(#[trigger] v[j], old) && v[j].origin == u;
            assert(same_book(v[j], m));
        }
        if u == b.origin {
            assert(same_book(v[n - 1], m));
        }
        if comes_from(u, m, v, n) {
            let j = choose|j: int| 0 <= j < n && same_book(#[trigger] v[j], m) && v[j].origin == u;
            if j < n - 1 {
                assert(same_book(v[j], old));
            }
        }
    }
}

proof fn lemma_sources_stay(m: FoundBookV, v: Seq<FoundBookV>, n: int)
    requires
        0 < n <= v.len(),
        has_all_sources(m, v, n - 1),
        !same_book(v[n - 1], m),
    ensures
        has_all_sources(m, v, n),
{
    assert forall|u: Seq<char>| #[trigger] m.book_source_urls->0.contains(u) <==> comes_from(u, m, v, n) by {
        if comes_from(u, m, v, n - 1) {
            let j = choose|j: int| 0 <= j < n - 1 && same_book(#[trigger] v[j], m) && v[j].origin == u;
            assert(same_book(v[j], m));
        }
        if comes_from(u, m, v, n) {
            let j = choose|j: int| 0 <= j < n && same_book(#[trigger] v[j], m) && v[j].origin == u;
            assert(j < n - 1);
            assert(same_book(v[j], m));
        }
    }
}

proof fn lemma_new_book(m: FoundBookV, v: Seq<FoundBookV>, n: int)
    requires
        0 < n <= v.len(),
        m == (FoundBookV { book_source_urls: Some(seq![v[n - 1].origin]), ..v[n - 1] }),
        forall|j: int| 0 <= j < n - 1 ==> !same_book(#[trigger] v[j], v[n - 1]),
    ensures
        is_merged_of(m, v, n),
{
    let urls = m.book_source_urls->0;
    assert(urls[0] == v[n - 1].origin);
    assert forall|u: Seq<char>| #[trigger] urls.contains(u) <==> comes_from(u, m, v, n) by {
        if urls.contains(u) {
            assert(same_book(v[n - 1], m));
        }
        if comes_from(u, m, v, n) {
            let j = choose|j: int| 0 <= j < n && same_book(#[trigger] v[j], m) && v[j].origin == u;
            assert(j == n - 1);
        }
    }
    assert(is_first_book(m, v, n - 1, n));
}

proof fn lemma_merged_step(v: Seq<FoundBookV>, n: int, k: int)
    requires
        0 < n <= v.len(),
        0 <= k < merged_books(v, n).len(),
        forall|i: int|
            0 <= i < merged_books(v, n - 1).len() ==> is_merged_of(#[trigger] merged_books(v, n - 1)[i], v, n - 1),
        forall|j: int| 0 <= j < n - 1 ==> has_book(merged_books(v, n - 1), #[trigger] v[j]),
    ensures
        is_merged_of(merged_books(v, n)[k], v, n),
{
    let before = merged_books(v, n - 1);
    let m = merged_books(v, n)[k];
    let b = v[n - 1];
    lemma_book_from(before, b, 0);
    if k < before.len() {
        let old = before[k];
        assert(is_merged_of(old, v, n - 1));
        let i = choose|i: int| #[trigger] is_first_book(old, v, i, n - 1);
        assert(is_first_book(m, v, i, n));
        if book_from(before, b, 0) == Some(k) {
            lemma_source_added(old, m, v, n);
        } else {
            if same_book(b, old) {
                if let Some(q) = book_from(before, b, 0) {
                    lemma_books_apart(v, n - 1, q, k);
                }
            }
            lemma_sources_stay(m, v, n);
        }
    } else {
        assert forall|j: int| 0 <= j < n - 1 implies !same_book(#[trigger] v[j], b) by {
            assert(has_book(before, v[j]));
            let i = choose|i: int| 0 <= i < before.len() && same_book(#[trigger] before[i], v[j]);
            assert(!same_book(before[i], b));
        }
        lemma_new_book(m, v, n);
    }
}

proof fn lemma_merged_all(v: Seq<FoundBookV>, n: int)
    requires
        0 <= n <= v.len(),
    ensures
        forall|k: int| 0 <= k < merged_books(v, n).len() ==> is_merged_of(#[trigger] merged_books(v, n)[k], v, n),
    decreases n,
{
    if n > 0 {
        lemma_merged_all(v, n - 1);
        assert forall|j: int| 0 <= j < n - 1 implies has_book(merged_books(v, n - 1), #[trigger] v[j]) by {
            lemma_merged(v, n - 1);
        }
        assert forall|k: int| 0 <= k < merged_books(v, n).len() implies is_merged_of(
            #[trigger] merged_books(v, n)[k],
            v,
            n,
        ) by {
            lemma_merged_step(v, n, k);
        }
    }
}

/// No two merged books are of one name and author.
proof fn lemma_books_apart(v: Seq<FoundBookV>, n: int, a: int, b: int)
    requires
        0 <= n <= v.len(),
        0 <= a < merged_books(v, n).len(),
        0 <= b < merged_books(v, n).len(),
        a != b,
    ensures
        !same_book(merged_books(v, n)[a], merged_books(v, n)[b]),
    decreases n,
{
    if n > 0 {
        let before = merged_books(v, n - 1);
        lemma_book_from(before, v[n - 1], 0);
        if a < before.len() && b < before.len() {
            lemma_books_apart(v, n - 1, a, b);
        } else if a < before.len() {
            assert(!same_book(before[a], v[n - 1]));
        } else if b < before.len() {
            assert(!same_book(before[b], v[n - 1]));
        }
    }
}

/// Merging makes one of all books of one name and author: the first of them,
/// with the sources of all of them and no others.
pub proof fn law_merged_books(v: Seq<FoundBookV>)
    ensures
        forall|k: int|
            0 <= k < merged_books(v, v.len() as int).len() ==> is_merged_of(
                #[trigger] merged_books(v, v.len() as int)[k],
                v,
                v.len() as int,
            ),
        forall|j: int| 0 <= j < v.len() ==> has_book(merged_books(v, v.len() as int), #[trigger] v[j]),
{
    lemma_merged_all(v, v.len() as int);
    lemma_merged(v, v.len() as int);
}

/// A text that is encoded for an address says the same bytes.
pub proof fn law_encoded_text(input: Seq<char>, x: ExtraV, w: World, o: Oracle)
    ensures
        percent_bytes(encode_utf8(eval_answer(input, "@encode"@, x, w, o).0)) == encode_utf8(input),
        eval_answer(input, "@encode"@, x, w, o).1 == w,
{
    reveal_strlit("@encode");
    reveal_strlit("@version");
    reveal_strlit("@uuid");
    reveal_strlit("@android_id");
    assert("@encode"@.len() == 7 && "@version"@.len() == 8 && "@uuid"@.len() == 5 && "@android_id"@.len() == 11);
    lemma_solid_ends("@encode"@);
    law_percent_bytes_read_back(encode_utf8(input));
}

/// A replacement as a rule replaces every match in the text.
pub proof fn law_replacement_on_text(
    input: Seq<char>,
    pattern: Seq<char>,
    to: Seq<char>,
    x: ExtraV,
    w: World,
    o: Oracle,
)
    requires
        are_steps(seq![pattern, to]),
        !contains_text("##"@ + pattern + "##"@ + to, " -"@),
    ensures
        eval_answer(input, "##"@ + pattern + "##"@ + to, x, w, o) == (
            match regex_replaced(pattern, input, to) {
                Some(t) => t,
                None => replace_of(input, pattern, to),
            },
            w,
        ),
{
    reveal_strlit("##");
    reveal_strlit("@version");
    reveal_strlit("@uuid");
    reveal_strlit("@android_id");
    reveal_strlit("@encode");
    reveal_strlit("@decode");
    reveal_strlit("@clean");
    reveal_strlit("@text");
    reveal_strlit("@merge");
    reveal_strlit("@validate");
    reveal_strlit("-");
    let r = "##"@ + pattern + "##"@ + to;
    let pair = seq![pattern, to];
    assert(pair.last() == to && pair[1] == to && pair[0] == pattern);
    assert(r[0] == '#' && r.last() == to.last());
    lemma_solid_ends(r);
    assert("@version"@[0] == '@' && "@uuid"@[0] == '@' && "@android_id"@[0] == '@' && "@encode"@[0] == '@'
        && "@decode"@[0] == '@' && "@clean"@[0] == '@' && "@text"@[0] == '@' && "@merge"@[0] == '@' && "@validate"@[0] == '@');
    if has_prefix(r, "-"@) {
        assert(r.subrange(0, 1)[0] == '#');
    }
    assert(r.subrange(0, 2) =~= "##"@);
    law_replacements_in_order(input, pair, pattern, to);
}

/// A source is valid where it is JSON, can be read as a source, and has an
/// address and a name; each of the two that is blank is told.
pub proof fn law_source_is_checked(raw: Seq<char>, described: Result<BookSource, Seq<char>>)
    ensures
        ({
            let errors = source_errors(raw, described);
            let v = validation_json(errors);
            let has_url = described is Ok && trim_of(described->Ok_0.book_source_url@).len() > 0;
            let has_name = described is Ok && trim_of(described->Ok_0.book_source_name@).len() > 0;
            &&& member_of(v, "valid"@) == Some(JsonV::Bool(json_of(raw) is Some && has_url && has_name))
            &&& member_of(v, "errors"@) == Some(texts_json(errors))
            &&& json_of(raw) is None ==> errors.len() == 1
            &&& json_of(raw) is Some && described is Ok ==> {
                &&& errors.contains("bookSourceUrl is empty"@) <==> !has_url
                &&& errors.contains("bookSourceName is empty"@) <==> !has_name
            }
        }),
{
    reveal_strlit("valid");
    reveal_strlit("errors");
    reveal_strlit("bookSourceUrl is empty");
    reveal_strlit("bookSourceName is empty");
    assert("valid"@.len() == 5 && "errors"@.len() == 6);
    assert("bookSourceUrl is empty"@.len() == 22 && "bookSourceName is empty"@.len() == 23);
    let errors = source_errors(raw, described);
    let m = validation_json(errors)->Object_0;
    lemma_member(m, 0);
    lemma_member(m, 1);
    if json_of(raw) is Some && described is Ok {
        if errors.len() > 0 {
            assert(errors.contains(errors[0]));
        }
        if errors.len() > 1 {
            assert(errors.contains(errors[1]));
        }
    }
}

} // verus!
