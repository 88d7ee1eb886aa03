//! What the sign of a list rule does.

use crate::model::book_source::BookSource;
use crate::model::rule::SearchRule;
use crate::parser::field::ScopeV;
use crate::parser::rule_engine::{
    books_by_mode, detail_result, found_all, found_list, page_results, search_results, ItemPolicy,
};
use crate::parser::script::{Oracle, World};
use crate::parser::source_rule::{list_rule_of, pattern_matches, ParseMode};
use crate::util::chars::{has_prefix, is_space, opt_text, trim_end_of, trim_of, trim_start_of};
use vstd::prelude::*;
use vstd::string::*;

verus! {

proof fn lemma_end_trimmed(c: char, s: Seq<char>)
    requires
        !is_space(c),
    ensures
        trim_end_of(seq![c] + s) == seq![c] + trim_end_of(s),
    decreases s.len(),
{
    let t = seq![c] + s;
    if s.len() == 0 {
        assert(t =~= seq![c]);
        assert(t.last() == c);
        assert(seq![c] + trim_end_of(s) =~= seq![c]);
    } else {
        assert(t.last() == s.last());
        if is_space(s.last()) {
            assert(t.drop_last() =~= seq![c] + s.drop_last());
            lemma_end_trimmed(c, s.drop_last());
        }
    }
}

proof fn lemma_start_of_end(s: Seq<char>)
    ensures
        trim_of(trim_end_of(s)) == trim_of(s),
    decreases s.len(),
{
    if s.len() > 0 && is_space(s.last()) {
        let t = s.drop_last();
        lemma_start_of_end(t);
        lemma_start_and_last(s);
    }
}

proof fn lemma_start_and_last(s: Seq<char>)
    requires
        s.len() > 0,
        is_space(s.last()),
    ensures
        trim_of(s.drop_last()) == trim_of(s),
    decreases s.len(),
{
    let t = s.drop_last();
    if is_space(s[0]) {
        let rest = s.subrange(1, s.len() as int);
        if s.len() == 1 {
            assert(rest =~= t);
        } else {
            assert(t[0] == s[0]);
            assert(t.subrange(1, t.len() as int) =~= rest.drop_last());
            assert(rest.last() == s.last());
            lemma_start_and_last(rest);
        }
    } else {
        assert(s.len() > 1);
        assert(t[0] == s[0]);
        assert(trim_start_of(s) == s);
        assert(trim_start_of(t) == t);
    }
}

/// A sign before a list rule is taken off, and a minus asks for the reverse.
pub proof fn law_list_rule_sign(rule: Seq<char>)
    requires
        !has_prefix(trim_of(rule), "-"@),
        !has_prefix(trim_of(rule), "+"@),
    ensures
        list_rule_of(rule) == (trim_of(rule), false),
        list_rule_of("-"@ + rule) == (trim_of(rule), true),
        list_rule_of("+"@ + rule) == (trim_of(rule), false),
{
    reveal_strlit("-");
    reveal_strlit("+");
    assert("-"@ =~= seq!['-']);
    assert("+"@ =~= seq!['+']);
    lemma_start_of_end(rule);
    let m = seq!['-'] + rule;
    let p = seq!['+'] + rule;
    assert(m[0] == '-' && p[0] == '+');
    lemma_end_trimmed('-', rule);
    lemma_end_trimmed('+', rule);
    let x = trim_end_of(rule);
    assert(trim_of(m) == seq!['-'] + x);
    assert(trim_of(p) == seq!['+'] + x);
    assert((seq!['-'] + x).subrange(0, 1) =~= seq!['-']);
    assert((seq!['+'] + x).subrange(0, 1) =~= seq!['+']);
    assert((seq!['-'] + x).subrange(1, (seq!['-'] + x).len() as int) =~= x);
    assert((seq!['+'] + x).subrange(1, (seq!['+'] + x).len() as int) =~= x);
    assert(seq!['+'][0] != seq!['-'][0]);
}

proof fn lemma_same_found(
    items: Seq<ScopeV>,
    n: int,
    origin: Seq<char>,
    a: SearchRule,
    b: SearchRule,
    base: Seq<char>,
    policy: ItemPolicy,
    w: World,
    o: Oracle,
)
    requires
        b == (SearchRule { book_list: b.book_list, ..a }),
    ensures
        found_list(items, n, origin, a, base, policy, w, o) == found_list(items, n, origin, b, base, policy, w, o),
    decreases n,
{
    if n > 0 {
        lemma_same_found(items, n - 1, origin, a, b, base, policy, w, o);
    }
}

proof fn lemma_same_books(
    mode: ParseMode,
    origin: Seq<char>,
    body: Seq<char>,
    base: Seq<char>,
    a: SearchRule,
    b: SearchRule,
    list: Seq<char>,
    w: World,
    o: Oracle,
)
    requires
        b == (SearchRule { book_list: b.book_list, ..a }),
    ensures
        books_by_mode(mode, origin, body, base, a, list, w, o) == books_by_mode(mode, origin, body, base, b, list, w, o),
{
    assert forall|items: Seq<ScopeV>, policy: ItemPolicy, v: World| #[trigger]
        found_all(items, origin, a, base, policy, v, o) == found_all(items, origin, b, base, policy, v, o) by {
        lemma_same_found(items, items.len() as int, origin, a, b, base, policy, v, o);
    }
}

/// Whether two rules are the same but for a sign before their lists.
pub open spec fn is_signed(plain: SearchRule, sign: Seq<char>, signed: SearchRule) -> bool {
    &&& signed == (SearchRule { book_list: signed.book_list, ..plain })
    &&& plain.book_list is Some
    &&& opt_text(signed.book_list) == Some(sign + plain.book_list->0@)
}

/// A minus before the list rule of a source reverses the results of a page, and
/// a plus leaves them as they are.
pub proof fn law_sign_of_page_results(
    source: BookSource,
    other: BookSource,
    plain: SearchRule,
    minus: SearchRule,
    plus: SearchRule,
    body: Seq<char>,
    base: Seq<char>,
    w: World,
    o: Oracle,
)
    requires
        other == (BookSource { rule_search: other.rule_search, ..source }),
        is_signed(plain, "-"@, minus),
        is_signed(plain, "+"@, plus),
        !has_prefix(trim_of(plain.book_list->0@), "-"@),
        !has_prefix(trim_of(plain.book_list->0@), "+"@),
    ensures
        ({
            let x = page_results(source, plain, body, base, w, o);
            &&& page_results(other, minus, body, base, w, o) == (x.0.reverse(), x.1)
            &&& page_results(other, plus, body, base, w, o) == x
        }),
{
    let list = plain.book_list->0@;
    law_list_rule_sign(list);
    let l = trim_of(list);
    let mode = crate::parser::rule_engine::detected_mode(l, body);
    let origin = source.book_source_url@;
    lemma_same_books(mode, origin, body, base, plain, minus, l, w, o);
    lemma_same_books(mode, origin, body, base, plain, plus, l, w, o);
    assert forall|v: World| #[trigger] detail_result(source, body, base, v, o) == detail_result(other, body, base, v, o) by {
        lemma_same_detail(source, other, body, base, v, o);
    }
}

proof fn lemma_same_detail(
    source: BookSource,
    other: BookSource,
    body: Seq<char>,
    base: Seq<char>,
    w: World,
    o: Oracle,
)
    requires
        other == (BookSource { rule_search: other.rule_search, ..source }),
    ensures
        detail_result(source, body, base, w, o) == detail_result(other, body, base, w, o),
{
}

proof fn lemma_page_of_book(
    source: BookSource,
    other: BookSource,
    body: Seq<char>,
    base: Seq<char>,
    w: World,
    o: Oracle,
)
    requires
        other == (BookSource { rule_search: other.rule_search, ..source }),
        pattern_matches(opt_text(source.book_url_pattern), base),
    ensures
        search_results(source, body, base, w, o) == search_results(other, body, base, w, o),
        search_results(source, body, base, w, o).0.len() <= 1,
{
    lemma_same_detail(source, other, body, base, w, o);
}

proof fn lemma_list_page(source: BookSource, body: Seq<char>, base: Seq<char>, w: World, o: Oracle)
    requires
        source.rule_search is Some,
        !pattern_matches(opt_text(source.book_url_pattern), base),
    ensures
        search_results(source, body, base, w, o) == page_results(source, source.rule_search->0, body, base, w, o),
{
}

/// A minus before the list rule of searches reverses the results of a search,
/// and a plus leaves them as they are.
#[verifier::rlimit(40)]
pub proof fn law_sign_of_search_results(
    source: BookSource,
    reversed: BookSource,
    kept: BookSource,
    body: Seq<char>,
    base: Seq<char>,
    w: World,
    o: Oracle,
)
    requires
        source.rule_search is Some,
        reversed == (BookSource { rule_search: reversed.rule_search, ..source }),
        kept == (BookSource { rule_search: kept.rule_search, ..source }),
        reversed.rule_search is Some,
        kept.rule_search is Some,
        is_signed(source.rule_search->0, "-"@, reversed.rule_search->0),
        is_signed(source.rule_search->0, "+"@, kept.rule_search->0),
        !has_prefix(trim_of(source.rule_search->0.book_list->0@), "-"@),
        !has_prefix(trim_of(source.rule_search->0.book_list->0@), "+"@),
    ensures
        ({
            let x = search_results(source, body, base, w, o);
            &&& search_results(reversed, body, base, w, o) == (x.0.reverse(), x.1)
            &&& search_results(kept, body, base, w, o) == x
        }),
{
    let plain = source.rule_search->0;
    let minus = reversed.rule_search->0;
    let plus = kept.rule_search->0;
    if pattern_matches(opt_text(source.book_url_pattern), base) {
        lemma_page_of_book(source, reversed, body, base, w, o);
        lemma_page_of_book(source, kept, body, base, w, o);
        let x = search_results(source, body, base, w, o).0;
        assert(x.reverse() =~= x);
    } else {
        lemma_list_page(source, body, base, w, o);
        lemma_list_page(reversed, body, base, w, o);
        lemma_list_page(kept, body, base, w, o);
        law_sign_of_page_results(source, reversed, plain, minus, plus, body, base, w, o);
        law_sign_of_page_results(source, kept, plain, minus, plus, body, base, w, o);
    }
}

} // verus!
