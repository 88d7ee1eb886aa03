//! What holds of books, results and chapters, and of the rules that give them.

use crate::ext::json::json_of;
use crate::ext::urls::url_joined;
use crate::model::book_chapter::ChapterV;
use crate::model::book_source::BookSource;
use crate::model::rule::{BookInfoRule, ContentRule, SearchRule, TocRule};
use crate::model::search::FoundBookV;
use crate::parser::context::{variables_of, variables_text, CtxV};
use crate::parser::field::{field, rule_field, rule_fields, FieldOut, ScopeV};
use crate::parser::html::list_of;
use crate::parser::list_laws::law_list_rule_sign;
use crate::parser::rule_engine::{
    book_context, book_in, books_by_mode, chapter_rules, deduped, detected_mode, element_scopes, found_all, found_book,
    found_list, has_url, info_rules, item_context, item_variable, listed_chapter, listed_chapters, next_content_page,
    result_rules, same_result, search_results, source_book, source_toc, toc_by_mode, ItemPolicy,
};
use crate::parser::script::{Oracle, World};
use crate::parser::source_rule::{
    chapter_url, identities, next_pages, pattern_matches, truthy, url_identity, without_mode, ParseMode,
};
use crate::util::address::{resolved_url, without_config};
use crate::util::chars::{decimal_of, has_prefix, lower_ascii_of, opt_text, trim_of};
use crate::util::text::normalized_url;
use vstd::prelude::*;
use vstd::string::*;

verus! {

/// Whether an address holds nothing that is taken off it.
pub open spec fn is_clean(url: Seq<char>) -> bool {
    normalized_url(url) == url && without_config(url) == url
}

/// An address on a page stands for what it is joined to the page's address as;
/// a blank one stands for the page, one without a scheme is read with `https`.
pub proof fn law_address_on_page(base: Seq<char>, url: Seq<char>)
    requires
        is_clean(base),
        is_clean(url),
    ensures
        url.len() == 0 ==> resolved_url(base, url) == base,
        has_prefix(url, "//"@) ==> resolved_url(base, url) == "https:"@ + url,
        url.len() > 0 && !has_prefix(url, "http://"@) && !has_prefix(url, "https://"@) && !has_prefix(url, "//"@)
            ==> match url_joined(base, url) {
            Some(Ok(x)) => resolved_url(base, url) == x,
            Some(Err(_)) => true,
            None => resolved_url(base, url) == url,
        },
{
    reveal_strlit("http://");
    reveal_strlit("https://");
    reveal_strlit("//");
    if has_prefix(url, "//"@) {
        assert(url.subrange(0, 2)[0] == '/');
        if has_prefix(url, "http://"@) {
            assert(url.subrange(0, 7)[0] == 'h');
        }
        if has_prefix(url, "https://"@) {
            assert(url.subrange(0, 8)[0] == 'h');
        }
    }
}

/// What the rule `k` of some that are evaluated one after the other gives.
pub open spec fn value_at(
    s: ScopeV,
    rules: Seq<Option<Seq<char>>>,
    k: int,
    base: Seq<char>,
    c: CtxV,
    w: World,
    o: Oracle,
) -> FieldOut
    decreases k,
{
    if k <= 0 {
        rule_field(s, rules[0], base, c, w, o)
    } else {
        let before = value_at(s, rules, k - 1, base, c, w, o);
        rule_field(s, rules[k], base, before.ctx, before.w, o)
    }
}

proof fn lemma_value_at(
    s: ScopeV,
    rules: Seq<Option<Seq<char>>>,
    n: int,
    base: Seq<char>,
    c: CtxV,
    w: World,
    o: Oracle,
)
    requires
        1 <= n <= rules.len(),
    ensures
        ({
            let got = rule_fields(s, rules, n, base, c, w, o);
            let last = value_at(s, rules, n - 1, base, c, w, o);
            &&& got.values.len() == n
            &&& forall|k: int| 0 <= k < n ==> #[trigger] got.values[k] == value_at(s, rules, k, base, c, w, o).value
            &&& got.ctx == last.ctx
            &&& got.w == last.w
        }),
    decreases n,
{
    if n > 1 {
        lemma_value_at(s, rules, n - 1, base, c, w, o);
        let before = rule_fields(s, rules, n - 1, base, c, w, o);
        let got = rule_fields(s, rules, n, base, c, w, o);
        assert forall|k: int| 0 <= k < n implies #[trigger] got.values[k] == value_at(s, rules, k, base, c, w, o).value by {
            if k < n - 1 {
                assert(got.values[k] == before.values[k]);
            }
        }
    } else {
        reveal_with_fuel(rule_fields, 2);
        let none = rule_fields(s, rules, 0, base, c, w, o);
        assert(none.values.len() == 0 && none.ctx == c && none.w == w);
    }
}

/// A value, or a blank where there is none.
pub open spec fn given(v: Option<Seq<char>>) -> Seq<char> {
    match v {
        Some(t) => t,
        None => seq![],
    }
}

/// The rules of a book's page, in their order.
pub open spec fn page_rules(rule: BookInfoRule) -> Seq<Option<Seq<char>>> {
    seq![
        opt_text(rule.name),
        opt_text(rule.author),
        opt_text(rule.intro),
        opt_text(rule.kind),
        opt_text(rule.last_chapter),
        opt_text(rule.update_time),
        opt_text(rule.cover_url),
        opt_text(rule.word_count),
        opt_text(rule.toc_url),
        opt_text(rule.can_re_name),
        opt_text(rule.download_urls),
    ]
}

/// A book has of each of its rules what that rule gives in the scope of the
/// page. Its cover and its table of contents stand at the addresses that their
/// rules give, resolved on the page; where the rule of the table of contents
/// gives nothing, and only there, it stands at the book's own address.
pub proof fn law_book_has_what_its_rules_give(
    s: ScopeV,
    source: BookSource,
    rule: BookInfoRule,
    base: Seq<char>,
    book_url: Seq<char>,
    c: CtxV,
    w: World,
    o: Oracle,
)
    ensures
        ({
            let b = book_in(s, source, rule, base, book_url, c, w, o).0;
            let at = |k: int| value_at(s, page_rules(rule), k, base, c, w, o).value;
            &&& b.name == given(at(0))
            &&& b.author == given(at(1))
            &&& b.intro == at(2)
            &&& b.kind == at(3)
            &&& b.latest_chapter_title == at(4)
            &&& b.update_time == at(5)
            &&& b.word_count == at(7)
            &&& b.can_re_name == at(9)
            &&& b.download_urls == at(10)
            &&& b.book_url == book_url
            &&& b.origin == source.book_source_url@
            &&& b.origin_name == Some(source.book_source_name@)
            &&& match at(6) {
                Some(u) => b.cover_url == Some(resolved_url(base, u)),
                None => b.cover_url is None,
            }
            &&& match at(8) {
                Some(u) => b.toc_url == Some(resolved_url(base, u)),
                None => b.toc_url == Some(book_url),
            }
            &&& b.variable == variables_text(value_at(s, page_rules(rule), 10, base, c, w, o).ctx.book)
            &&& book_in(s, source, rule, base, book_url, c, w, o).1 == value_at(
                s,
                page_rules(rule),
                10,
                base,
                c,
                w,
                o,
            ).w
        }),
{
    assert(info_rules(rule) =~= page_rules(rule));
    lemma_value_at(s, page_rules(rule), 11, base, c, w, o);
    let got = rule_fields(s, page_rules(rule), 11, base, c, w, o);
    assert(forall|k: int| 0 <= k < 11 ==> #[trigger] got.values[k] == value_at(s, page_rules(rule), k, base, c, w, o).value);
}

/// The table of contents of a book stands at the address that its rule gives,
/// joined to the address of the page.
pub proof fn law_toc_address_is_joined(
    s: ScopeV,
    source: BookSource,
    rule: BookInfoRule,
    base: Seq<char>,
    book_url: Seq<char>,
    c: CtxV,
    w: World,
    o: Oracle,
    u: Seq<char>,
    joined: Seq<char>,
)
    requires
        value_at(s, page_rules(rule), 8, base, c, w, o).value == Some(u),
        is_clean(base),
        is_clean(u),
        u.len() > 0,
        !has_prefix(u, "http://"@),
        !has_prefix(u, "https://"@),
        !has_prefix(u, "//"@),
        url_joined(base, u) == Some(Ok::<Seq<char>, Seq<char>>(joined)),
    ensures
        book_in(s, source, rule, base, book_url, c, w, o).0.toc_url == Some(joined),
{
    law_book_has_what_its_rules_give(s, source, rule, base, book_url, c, w, o);
    law_address_on_page(base, u);
}

/// The book of a page is read from the whole page where no rule narrows it:
/// from its elements, or from its value where it is JSON. What the book was
/// saved with is there for its rules.
pub proof fn law_book_of_page(
    source: BookSource,
    rule: BookInfoRule,
    body: Seq<char>,
    base: Seq<char>,
    book_url: Seq<char>,
    variable: Option<Seq<char>>,
    name: Option<Seq<char>>,
    w: World,
    o: Oracle,
)
    requires
        source.rule_book_info == Some(rule),
        trim_of(given(opt_text(rule.init))).len() == 0,
    ensures
        ({
            let mode = detected_mode(given(opt_text(rule.name)), body);
            let c = book_context(variable, name);
            let got = source_book(source, body, base, book_url, variable, name, w, o);
            &&& mode == ParseMode::Css ==> got == book_in(ScopeV::Page(body), source, rule, base, book_url, c, w, o)
            &&& mode == ParseMode::JsonPath && json_of(body) is Some ==> got == book_in(
                ScopeV::Value(json_of(body)->0),
                source,
                rule,
                base,
                book_url,
                c,
                w,
                o,
            )
            &&& c.book == Some(variables_of(variable))
            &&& c.book_name == name
        }),
{
}

/// The rules of a result, in their order.
pub open spec fn item_rules(rule: SearchRule) -> Seq<Option<Seq<char>>> {
    seq![
        opt_text(rule.author),
        opt_text(rule.book_url),
        opt_text(rule.cover_url),
        opt_text(rule.intro),
        opt_text(rule.kind),
        opt_text(rule.last_chapter),
        opt_text(rule.update_time),
        opt_text(rule.word_count),
    ]
}

/// A result has of each of its rules what that rule gives in its item, with
/// its addresses resolved on the page; it is none only where an item without a
/// name is passed over.
pub proof fn law_result_has_what_its_rules_give(
    s: ScopeV,
    origin: Seq<char>,
    rule: SearchRule,
    base: Seq<char>,
    policy: ItemPolicy,
    w: World,
    o: Oracle,
)
    ensures
        ({
            let got = found_book(s, origin, rule, base, policy, w, o);
            let first = rule_field(s, opt_text(rule.name), base, item_context(), w, o);
            let at = |k: int| value_at(s, item_rules(rule), k, base, first.ctx, first.w, o).value;
            let last = value_at(s, item_rules(rule), 7, base, first.ctx, first.w, o);
            &&& got.0 is None <==> policy.skip_unnamed && given(first.value).len() == 0
            &&& got.0 is None ==> got.1 == first.w
            &&& got.0 matches Some(b) ==> {
                &&& b.name == given(first.value)
                &&& b.author == given(at(0))
                &&& b.intro == at(3)
                &&& b.kind == at(4)
                &&& b.last_chapter == at(5)
                &&& b.update_time == at(6)
                &&& b.word_count == at(7)
                &&& b.origin == origin
                &&& b.book_source_urls is None
                &&& b.variable == variables_text(last.ctx.book)
                &&& match at(2) {
                    Some(u) => b.cover_url == Some(resolved_url(base, u)),
                    None => b.cover_url is None,
                }
                &&& match at(1) {
                    Some(u) => b.book_url == resolved_url(base, u),
                    None => b.book_url == if policy.blank_url {
                        seq![]
                    } else {
                        resolved_url(base, seq![])
                    },
                }
                &&& got.1 == last.w
            }
        }),
{
    let first = rule_field(s, opt_text(rule.name), base, item_context(), w, o);
    assert(result_rules(rule) =~= item_rules(rule));
    lemma_value_at(s, item_rules(rule), 8, base, first.ctx, first.w, o);
    let got = rule_fields(s, item_rules(rule), 8, base, first.ctx, first.w, o);
    assert(forall|k: int|
        0 <= k < 8 ==> #[trigger] got.values[k] == value_at(s, item_rules(rule), k, base, first.ctx, first.w, o).value);
}

proof fn lemma_found_more(
    a: Seq<ScopeV>,
    b: Seq<ScopeV>,
    n: int,
    origin: Seq<char>,
    rule: SearchRule,
    base: Seq<char>,
    policy: ItemPolicy,
    w: World,
    o: Oracle,
)
    requires
        0 <= n <= b.len(),
    ensures
        ({
            let x = found_all(a, origin, rule, base, policy, w, o);
            let y = found_list(b, n, origin, rule, base, policy, x.1, o);
            found_list(a + b, a.len() + n, origin, rule, base, policy, w, o) == (x.0 + y.0, y.1)
        }),
    decreases n,
{
    let x = found_all(a, origin, rule, base, policy, w, o);
    if n > 0 {
        lemma_found_more(a, b, n - 1, origin, rule, base, policy, w, o);
        assert((a + b)[a.len() + n - 1] == b[n - 1]);
        let y = found_list(b, n - 1, origin, rule, base, policy, x.1, o);
        let got = found_book(b[n - 1], origin, rule, base, policy, y.1, o);
        if let Some(r) = got.0 {
            assert((x.0 + y.0).push(r) =~= x.0 + y.0.push(r));
        }
    } else {
        lemma_found_same(a, b, a.len() as int, origin, rule, base, policy, w, o);
        assert(x.0 + Seq::<FoundBookV>::empty() =~= x.0);
    }
}

proof fn lemma_found_same(
    a: Seq<ScopeV>,
    b: Seq<ScopeV>,
    n: int,
    origin: Seq<char>,
    rule: SearchRule,
    base: Seq<char>,
    policy: ItemPolicy,
    w: World,
    o: Oracle,
)
    requires
        0 <= n <= a.len(),
    ensures
        found_list(a + b, n, origin, rule, base, policy, w, o) == found_list(a, n, origin, rule, base, policy, w, o),
    decreases n,
{
    if n > 0 {
        lemma_found_same(a, b, n - 1, origin, rule, base, policy, w, o);
        assert((a + b)[n - 1] == a[n - 1]);
    }
}

/// The results of a list are those of its items, in their order: those of two
/// lists one after the other are the results of each, and one item gives the
/// one result that is read from it.
pub proof fn law_results_of_items(
    a: Seq<ScopeV>,
    b: Seq<ScopeV>,
    item: ScopeV,
    origin: Seq<char>,
    rule: SearchRule,
    base: Seq<char>,
    policy: ItemPolicy,
    w: World,
    o: Oracle,
)
    ensures
        ({
            let x = found_all(a, origin, rule, base, policy, w, o);
            let y = found_all(b, origin, rule, base, policy, x.1, o);
            found_all(a + b, origin, rule, base, policy, w, o) == (x.0 + y.0, y.1)
        }),
        ({
            let one = found_book(item, origin, rule, base, policy, w, o);
            found_all(seq![item], origin, rule, base, policy, w, o) == (
                match one.0 {
                    Some(r) => seq![r],
                    None => seq![],
                },
                one.1,
            )
        }),
{
    lemma_found_more(a, b, b.len() as int, origin, rule, base, policy, w, o);
    reveal_with_fuel(found_list, 2);
    let one = found_book(item, origin, rule, base, policy, w, o);
    assert(seq![item][0] == item);
    if let Some(r) = one.0 {
        assert(Seq::<FoundBookV>::empty().push(r) =~= seq![r]);
    }
}

/// The list of a page has an item for each element that its rule selects, or
/// for each value that it picks where the page is JSON, none passed over.
pub proof fn law_items_of_page(
    origin: Seq<char>,
    body: Seq<char>,
    base: Seq<char>,
    rule: SearchRule,
    list: Seq<char>,
    w: World,
    o: Oracle,
)
    requires
        trim_of(list).len() > 0,
    ensures
        ({
            let found = list_of(body, without_mode(list));
            books_by_mode(ParseMode::Css, origin, body, base, rule, list, w, o) == found_all(
                Seq::new(found.len(), |i: int| ScopeV::Element(body, found[i])),
                origin,
                rule,
                base,
                ItemPolicy { skip_unnamed: false, blank_url: false },
                w,
                o,
            )
        }),
{
    let found = list_of(body, without_mode(list));
    assert(element_scopes(body, found) =~= Seq::new(found.len(), |i: int| ScopeV::Element(body, found[i])));
}

proof fn lemma_all_kept(s: Seq<FoundBookV>, n: int)
    requires
        0 <= n <= s.len(),
        forall|i: int, j: int|
            #![trigger s[i], s[j]]
            0 <= i < j < s.len() ==> s[i].origin != s[j].origin || s[i].book_url != s[j].book_url,
    ensures
        deduped(s, n) == s.take(n),
    decreases n,
{
    if n > 0 {
        lemma_all_kept(s, n - 1);
        assert forall|i: int| 0 <= i < n - 1 implies !same_result(#[trigger] s.take(n - 1)[i], s[n - 1]) by {
            assert(s.take(n - 1)[i] == s[i]);
        }
        assert(s.take(n) =~= s.take(n - 1).push(s[n - 1]));
    } else {
        assert(s.take(0) =~= seq![]);
    }
}

/// Results that differ in origin or address are all kept, in their order.
pub proof fn law_different_results_stay(s: Seq<FoundBookV>)
    requires
        forall|i: int, j: int|
            #![trigger s[i], s[j]]
            0 <= i < j < s.len() ==> s[i].origin != s[j].origin || s[i].book_url != s[j].book_url,
    ensures
        deduped(s, s.len() as int) == s,
{
    lemma_all_kept(s, s.len() as int);
    assert(s.take(s.len() as int) =~= s);
}

/// A search page at an address that the source tells as a book's gives that
/// book, and nothing where the page names none.
pub proof fn law_book_page_as_result(source: BookSource, body: Seq<char>, base: Seq<char>, w: World, o: Oracle)
    requires
        pattern_matches(opt_text(source.book_url_pattern), base),
    ensures
        ({
            let b = source_book(source, body, base, base, None, None, w, o).0;
            let r = search_results(source, body, base, w, o).0;
            &&& trim_of(b.name).len() == 0 ==> r.len() == 0
            &&& trim_of(b.name).len() > 0 ==> {
                &&& r.len() == 1
                &&& r[0].name == b.name
                &&& r[0].author == b.author
                &&& r[0].book_url == base
                &&& r[0].origin == source.book_source_url@
                &&& r[0].cover_url == b.cover_url
                &&& r[0].intro == b.intro
                &&& r[0].kind == b.kind
                &&& r[0].last_chapter == b.latest_chapter_title
                &&& r[0].update_time == b.update_time
                &&& r[0].word_count == b.word_count
                &&& r[0].variable == b.variable
            }
        }),
{
}

/// The rules of a chapter, in their order.
pub open spec fn entry_rules(rule: TocRule) -> Seq<Option<Seq<char>>> {
    seq![
        opt_text(rule.chapter_url),
        opt_text(rule.update_time),
        opt_text(rule.is_volume),
        opt_text(rule.is_vip),
        opt_text(rule.is_pay),
    ]
}

/// Whether the value of a rule says yes.
pub open spec fn says_yes(v: Option<Seq<char>>) -> bool {
    v is Some && truthy(v->0)
}

/// A chapter has of each of its rules what that rule gives in its item: its
/// address resolved on the page where the rule gives one, else a volume's title
/// and number, or the page.
pub proof fn law_chapter_has_what_its_rules_give(
    s: ScopeV,
    rule: TocRule,
    base: Seq<char>,
    c: CtxV,
    skip_untitled: bool,
    index: int,
    w: World,
    o: Oracle,
)
    ensures
        ({
            let got = listed_chapter(s, rule, base, c, skip_untitled, index, w, o);
            let c0 = CtxV { chapter: Some(variables_of(item_variable(s))), chapter_title: Some(""@), ..c };
            let first = rule_field(s, opt_text(rule.chapter_name), base, c0, w, o);
            let c1 = CtxV { chapter_title: Some(given(first.value)), ..first.ctx };
            let at = |k: int| value_at(s, entry_rules(rule), k, base, c1, first.w, o).value;
            let last = value_at(s, entry_rules(rule), 4, base, c1, first.w, o);
            &&& got.0 is None <==> skip_untitled && given(first.value).len() == 0
            &&& got.0 is None ==> got.1 == first.w
            &&& got.0 matches Some(ch) ==> {
                &&& ch.title == given(first.value)
                &&& ch.tag == at(1)
                &&& ch.is_volume == says_yes(at(2))
                &&& ch.is_vip == says_yes(at(3))
                &&& ch.is_pay == says_yes(at(4))
                &&& ch.index == index as i32
                &&& ch.variable == variables_text(last.ctx.chapter)
                &&& ch.url == if trim_of(given(at(0))).len() > 0 {
                    resolved_url(base, given(at(0)))
                } else if says_yes(at(2)) {
                    given(first.value) + decimal_of(index)
                } else {
                    base
                }
                &&& got.1 == last.w
            }
        }),
{
    let c0 = CtxV { chapter: Some(variables_of(item_variable(s))), chapter_title: Some(""@), ..c };
    let first = rule_field(s, opt_text(rule.chapter_name), base, c0, w, o);
    let c1 = CtxV { chapter_title: Some(given(first.value)), ..first.ctx };
    assert(chapter_rules(rule) =~= entry_rules(rule));
    lemma_value_at(s, entry_rules(rule), 5, base, c1, first.w, o);
    let got = rule_fields(s, entry_rules(rule), 5, base, c1, first.w, o);
    assert(forall|k: int|
        0 <= k < 5 ==> #[trigger] got.values[k] == value_at(s, entry_rules(rule), k, base, c1, first.w, o).value);
}

/// One more item adds its chapter to the end of a table of contents, numbered
/// by its place, unless it has no title and is passed over, or its address is
/// there already; the chapters before it stay.
pub proof fn law_item_adds_its_chapter(
    items: Seq<ScopeV>,
    item: ScopeV,
    rule: TocRule,
    base: Seq<char>,
    c: CtxV,
    skip_untitled: bool,
    w: World,
    o: Oracle,
)
    ensures
        ({
            let before = listed_chapters(items, items.len() as int, rule, base, c, skip_untitled, w, o);
            let more = items.push(item);
            let after = listed_chapters(more, more.len() as int, rule, base, c, skip_untitled, w, o);
            let one = listed_chapter(item, rule, base, c, skip_untitled, before.0.len() as int, before.1, o);
            &&& after.1 == one.1
            &&& after.0 == if one.0 is Some && forall|i: int|
                0 <= i < before.0.len() ==> (#[trigger] before.0[i]).url != one.0->0.url {
                before.0.push(one.0->0)
            } else {
                before.0
            }
        }),
{
    let n = items.len() as int;
    let more = items.push(item);
    lemma_chapters_same(items, more, n, rule, base, c, skip_untitled, w, o);
    assert(more[n] == item);
    let before = listed_chapters(items, n, rule, base, c, skip_untitled, w, o);
    let one = listed_chapter(item, rule, base, c, skip_untitled, before.0.len() as int, before.1, o);
    if one.0 is Some {
        assert(has_url(before.0, one.0->0.url) <==> !(forall|i: int|
            0 <= i < before.0.len() ==> (#[trigger] before.0[i]).url != one.0->0.url));
    }
}

proof fn lemma_chapters_same(
    a: Seq<ScopeV>,
    b: Seq<ScopeV>,
    n: int,
    rule: TocRule,
    base: Seq<char>,
    c: CtxV,
    skip_untitled: bool,
    w: World,
    o: Oracle,
)
    requires
        0 <= n <= a.len() <= b.len(),
        forall|i: int| 0 <= i < a.len() ==> #[trigger] a[i] == b[i],
    ensures
        listed_chapters(a, n, rule, base, c, skip_untitled, w, o) == listed_chapters(
            b,
            n,
            rule,
            base,
            c,
            skip_untitled,
            w,
            o,
        ),
    decreases n,
{
    if n > 0 {
        lemma_chapters_same(a, b, n - 1, rule, base, c, skip_untitled, w, o);
        assert(a[n - 1] == b[n - 1]);
    }
}

/// The further pages that addresses lead to: each that is not blank, not the
/// page itself and not there already, resolved on the page, in their order.
pub proof fn law_further_pages(base: Seq<char>, urls: Seq<Seq<char>>, url: Seq<char>)
    ensures
        ({
            let before = next_pages(base, urls, urls.len() as int);
            let more = urls.push(url);
            let t = trim_of(url);
            let u = resolved_url(base, t);
            let known = url_identity(u) == url_identity(base) || exists|i: int|
                0 <= i < before.len() && url_identity(#[trigger] before[i]) == url_identity(u);
            next_pages(base, more, more.len() as int) == if t.len() == 0 || known {
                before
            } else {
                before.push(u)
            }
        }),
{
    let n = urls.len() as int;
    let more = urls.push(url);
    lemma_pages_same(base, urls, more, n);
    assert(more[n] == url);
    let before = next_pages(base, urls, n);
    let x = url_identity(resolved_url(base, trim_of(url)));
    if identities(before).contains(x) {
        let i = choose|i: int| 0 <= i < identities(before).len() && identities(before)[i] == x;
        assert(url_identity(before[i]) == x);
    }
    if exists|i: int| 0 <= i < before.len() && url_identity(#[trigger] before[i]) == x {
        let i = choose|i: int| 0 <= i < before.len() && url_identity(#[trigger] before[i]) == x;
        assert(identities(before)[i] == x);
    }
}

proof fn lemma_pages_same(base: Seq<char>, a: Seq<Seq<char>>, b: Seq<Seq<char>>, n: int)
    requires
        0 <= n <= a.len() <= b.len(),
        forall|i: int| 0 <= i < a.len() ==> #[trigger] a[i] == b[i],
    ensures
        next_pages(base, a, n) == next_pages(base, b, n),
    decreases n,
{
    if n > 0 {
        lemma_pages_same(base, a, b, n - 1);
        assert(a[n - 1] == b[n - 1]);
    }
}

/// The chapters of a page are numbered by their places.
pub proof fn law_chapters_are_numbered(rule: TocRule, body: Seq<char>, base: Seq<char>, c: CtxV, w: World, o: Oracle)
    ensures
        forall|i: int|
            0 <= i < source_toc(rule, body, base, c, w, o).0.0.len() ==> (#[trigger] source_toc(
                rule,
                body,
                base,
                c,
                w,
                o,
            ).0.0[i]).index == i as i32,
{
}

/// Without a script for the page or its titles, the chapters of a page are
/// those of the list that its rule selects, in reverse where the rule has a
/// minus before it, and numbered by their places.
pub proof fn law_chapters_of_list(
    rule: TocRule,
    list: Seq<char>,
    body: Seq<char>,
    base: Seq<char>,
    c: CtxV,
    w: World,
    o: Oracle,
)
    requires
        trim_of(given(opt_text(rule.pre_update_js))).len() == 0,
        trim_of(given(opt_text(rule.format_js))).len() == 0,
        !has_prefix(trim_of(list), "-"@),
        !has_prefix(trim_of(list), "+"@),
    ensures
        ({
            let l = trim_of(list);
            let toc = toc_by_mode(detected_mode(l, body), body, base, rule, l, c, w, o);
            let got = source_toc(rule, body, base, c, w, o).0;
            let n = toc.chapters.len();
            &&& opt_text(rule.chapter_list) == Some(list) ==> {
                &&& got.0.len() == n
                &&& forall|i: int|
                    0 <= i < n ==> #[trigger] got.0[i] == (ChapterV { index: i as i32, ..toc.chapters[i] })
                &&& got.1 == toc.next
            }
            &&& opt_text(rule.chapter_list) == Some("-"@ + list) ==> {
                &&& got.0.len() == n
                &&& forall|i: int|
                    0 <= i < n ==> #[trigger] got.0[i] == (ChapterV { index: i as i32, ..toc.chapters[n - 1 - i] })
                &&& got.1 == toc.next
            }
        }),
{
    law_list_rule_sign(list);
}

/// The items of a table of contents are the elements that its list rule selects.
pub proof fn law_toc_of_elements(
    body: Seq<char>,
    base: Seq<char>,
    rule: TocRule,
    list: Seq<char>,
    c: CtxV,
    w: World,
    o: Oracle,
)
    requires
        trim_of(list).len() > 0,
        rule.init is None,
    ensures
        ({
            let found = list_of(body, without_mode(list));
            let items = Seq::new(found.len(), |i: int| ScopeV::Element(body, found[i]));
            toc_by_mode(ParseMode::Css, body, base, rule, list, c, w, o).chapters == listed_chapters(
                items,
                items.len() as int,
                rule,
                base,
                c,
                false,
                w,
                o,
            ).0
        }),
{
    let found = list_of(body, without_mode(list));
    assert(element_scopes(body, found) =~= Seq::new(found.len(), |i: int| ScopeV::Element(body, found[i])));
}

/// The page that continues a chapter is at the address that its rule gives,
/// resolved on the page; without a rule, or where it gives nothing, there is none.
pub proof fn law_next_content_page(
    rule: ContentRule,
    body: Seq<char>,
    base: Seq<char>,
    c: CtxV,
    w: World,
    o: Oracle,
)
    ensures
        ({
            let r = trim_of(given(opt_text(rule.next_content_url)));
            let mode = detected_mode(r, body);
            let got = next_content_page(rule, body, base, c, w, o).0;
            &&& r.len() == 0 ==> got is None
            &&& r.len() > 0 && mode == ParseMode::Css ==> match field(ScopeV::Page(body), r, base, c, w, o).value {
                Some(u) => if u.len() > 0 {
                    got == Some(resolved_url(base, u))
                } else {
                    got is None
                },
                None => got is None,
            }
            &&& r.len() > 0 && mode == ParseMode::JsonPath && json_of(body) is Some ==> match field(
                ScopeV::Value(json_of(body)->0),
                r,
                base,
                c,
                w,
                o,
            ).value {
                Some(u) => if u.len() > 0 {
                    got == Some(resolved_url(base, u))
                } else {
                    got is None
                },
                None => got is None,
            }
        }),
{
}

/// A value says no where it is blank or one of the words for it, in any case,
/// and yes otherwise.
pub proof fn law_yes_and_no(value: Seq<char>)
    ensures
        trim_of(value).len() == 0 ==> !truthy(value),
        lower_ascii_of(trim_of(value)) == "false"@ ==> !truthy(value),
        lower_ascii_of(trim_of(value)) == "0"@ ==> !truthy(value),
        lower_ascii_of(trim_of(value)) == "no"@ ==> !truthy(value),
        lower_ascii_of(trim_of(value)) == "null"@ ==> !truthy(value),
        lower_ascii_of(trim_of(value)) == "none"@ ==> !truthy(value),
        lower_ascii_of(trim_of(value)) == "not"@ ==> !truthy(value),
        lower_ascii_of(trim_of(value)) == "off"@ ==> !truthy(value),
        trim_of(value).len() > 5 ==> truthy(value),
        lower_ascii_of(trim_of(value)) == "true"@ ==> truthy(value),
        lower_ascii_of(trim_of(value)) == "1"@ ==> truthy(value),
        lower_ascii_of(trim_of(value)) == "yes"@ ==> truthy(value),
{
    reveal_strlit("0");
    reveal_strlit("1");
    reveal_strlit("true");
    reveal_strlit("yes");
    reveal_strlit("false");
    reveal_strlit("null");
    reveal_strlit("none");
    reveal_strlit("no");
    reveal_strlit("not");
    reveal_strlit("off");
    assert("1"@[0] == '1' && "0"@[0] == '0');
    assert("true"@[0] == 't' && "null"@[0] == 'n' && "none"@[0] == 'n');
    assert("yes"@[0] == 'y' && "not"@[0] == 'n' && "off"@[0] == 'o');
}

} // verus!
