//! What holds of the addresses that URL rules stand for.

use crate::crawler::url_rule::{
    absolute_of, choices_before_options, choices_in, choices_made, compiled_request, final_rule, found_choices_made,
    option_comma, option_comma_from, option_step, options_of, options_split, page_choice, page_choices,
    placeholders_filled, request_with, scripts_run, url_fault, url_templates_from, OptionScan, RequestV, UrlAskV,
};
use crate::ext::json::JsonV;
use crate::ext::regexes::{assembled, regex_matches, MatchesV};
use crate::model::book_source::BookSource;
use crate::parser::java_laws::law_percent_bytes_read_back;
use crate::parser::js::{called, url_call};
use crate::parser::markup::group_text;
use crate::parser::script::{Oracle, World};
use crate::parser::value_laws::{lemma_trimmed_ones, trimmed_ones};
use crate::util::bytes::{percent_bytes, percent_of};
use crate::util::chars::{
    all_digits, contains_text, decimal_of, digit_char, digits_of, digits_value, find_from, find_of, is_digit, is_space,
    join_of, lemma_find_from, occurs_at, replace_of, space_end, split_from, split_of, trim_of,
};
use vstd::prelude::*;
use vstd::string::*;
use vstd::utf8::encode_utf8;

verus! {

/// Whether a text has nothing that options are told by.
pub open spec fn is_plain_address(s: Seq<char>) -> bool {
    forall|i: int|
        0 <= i < s.len() ==> #[trigger] s[i] != ',' && s[i] != '"' && s[i] != '\'' && s[i] != '{' && s[i] != '}' && s[i]
            != '[' && s[i] != ']'
}

proof fn lemma_passed(s: Seq<char>, i: int, k: int, p: OptionScan)
    requires
        0 <= i <= k <= s.len(),
        forall|j: int|
            i <= j < k ==> #[trigger] s[j] != ',' && s[j] != '"' && s[j] != '\'' && s[j] != '{' && s[j] != '}' && s[j]
                != '[' && s[j] != ']',
        p == (OptionScan { quote: None, escaped: false, depth: 0 }),
    ensures
        option_comma_from(s, i, p) == option_comma_from(s, k, p),
    decreases k - i,
{
    if i < k {
        assert(option_step(p, s[i]) == p);
        lemma_passed(s, i + 1, k, p);
    }
}

/// A rule is an address, or an address, a comma and its options.
pub proof fn law_options_are_split_off(url: Seq<char>, options: Seq<char>)
    requires
        is_plain_address(url),
        options.len() > 0,
        options[0] == '{',
    ensures
        options_split(url) == (url, None::<Seq<char>>),
        options_split(url + ","@ + options) == (url, Some(options)),
{
    reveal_strlit(",");
    let p = OptionScan { quote: None, escaped: false, depth: 0 };
    lemma_passed(url, 0, url.len() as int, p);
    let s = url + ","@ + options;
    let k = url.len() as int;
    assert(forall|j: int| 0 <= j < k ==> #[trigger] s[j] == url[j]);
    lemma_passed(s, 0, k, p);
    assert(s[k] == ',');
    assert(s[k + 1] == options[0]);
    assert(!is_space('{'));
    assert(space_end(s, k + 1) == k + 1);
    assert(option_comma(s, k, p));
    assert(s.subrange(0, k) =~= url);
    assert(s.subrange(k + 1, s.len() as int) =~= options);
}

proof fn lemma_digit(n: int)
    requires
        0 <= n < 10,
    ensures
        is_digit(digit_char(n)),
        digit_char(n) as int - '0' as int == n,
{
    assert((n + 48) as u8 as int == n + 48);
}

proof fn lemma_digits(n: int)
    requires
        n >= 0,
    ensures
        decimal_of(n).len() > 0,
        all_digits(decimal_of(n)),
        digits_value(decimal_of(n)) == n,
    decreases n,
{
    let s = decimal_of(n);
    if n < 10 {
        lemma_digit(n);
        assert(s.drop_last() =~= seq![]);
        reveal_with_fuel(digits_value, 2);
    } else {
        lemma_digits(n / 10);
        lemma_digit(n % 10);
        assert(s.drop_last() =~= decimal_of(n / 10));
    }
}

/// A number in decimal digits reads as that number.
pub proof fn law_number_reads_back(n: int)
    requires
        n >= 0,
    ensures
        digits_of(decimal_of(n)) == Some(n),
{
    lemma_digits(n);
}

/// A text that does not occur is not replaced.
pub proof fn lemma_absent_replaced(s: Seq<char>, p: Seq<char>, to: Seq<char>)
    requires
        p.len() > 0,
        !contains_text(s, p),
    ensures
        replace_of(s, p, to) == s,
{
    assert(find_of(s, p) is None);
    assert(split_of(s, p) =~= seq![s]) by {
        assert(s.subrange(0, s.len() as int) =~= s);
    }
    assert(seq![s][0] == s);
}

/// A text is replaced where it stands, once where it stands once.
pub proof fn lemma_replaced_once(a: Seq<char>, p: Seq<char>, b: Seq<char>, to: Seq<char>)
    requires
        p.len() > 0,
        forall|i: int| 0 <= i < a.len() ==> #[trigger] a[i] != p[0],
        forall|i: int| 0 <= i < b.len() ==> !occurs_at(b, p, i),
    ensures
        replace_of(a + p + b, p, to) == a + to + b,
{
    let s = a + p + b;
    let k = a.len() as int;
    lemma_find_from(s, p, 0);
    assert(s.subrange(k, k + p.len()) =~= p);
    assert(occurs_at(s, p, k));
    assert forall|i: int| 0 <= i < k implies !occurs_at(s, p, i) by {
        if occurs_at(s, p, i) {
            assert(s.subrange(i, i + p.len())[0] == s[i]);
            assert(s[i] == a[i]);
        }
    }
    assert(find_of(s, p) == Some(k));
    let e = k + p.len();
    lemma_find_from(s, p, e);
    if let Some(j) = find_from(s, p, e) {
        assert(s.subrange(j, j + p.len()) =~= b.subrange(j - e, j - e + p.len()));
        assert(occurs_at(b, p, j - e));
    }
    assert(s.subrange(0, k) =~= a);
    assert(s.subrange(e, s.len() as int) =~= b);
    assert(split_from(s, p, e) == seq![b]);
    let parts = split_of(s, p);
    assert(parts =~= seq![a, b]);
    assert(parts.drop_last() =~= seq![a]);
    assert(seq![a][0] == a);
    assert(join_of(seq![a], to) == a);
    assert(parts.last() == b);
}

/// Whether a text says a key as addresses do.
pub open spec fn writes_key(t: Seq<char>, key: Seq<char>) -> bool {
    percent_bytes(encode_utf8(t)) == encode_utf8(key) && !t.contains('&') && !t.contains('#') && !t.contains('?')
}

/// The placeholder of the key is filled with the key as addresses write it, the
/// one of the page with its number, and the text around them stays.
pub proof fn law_placeholders_are_filled(
    a: Seq<char>,
    b: Seq<char>,
    c: Seq<char>,
    key: Seq<char>,
    page: int,
)
    requires
        page >= 1,
        forall|i: int| 0 <= i < a.len() ==> #[trigger] a[i] != '{',
        forall|i: int| 0 <= i < b.len() ==> #[trigger] b[i] != '{',
        forall|i: int| 0 <= i < c.len() ==> #[trigger] c[i] != '{',
        !contains_text(a + percent_of(encode_utf8(key)) + (b + "{page}"@ + c), "searchKey"@),
        !contains_text(a + percent_of(encode_utf8(key)) + b + decimal_of(page) + c, "searchPage"@),
    ensures
        exists|k: Seq<char>| #[trigger]
            writes_key(k, key) && placeholders_filled(a + "{key}"@ + b + "{page}"@ + c, key, page) == a + k + b
                + decimal_of(page) + c,
{
    reveal_strlit("{key}");
    reveal_strlit("{page}");
    reveal_strlit("searchKey");
    reveal_strlit("searchPage");
    let k = percent_of(encode_utf8(key));
    law_percent_bytes_read_back(encode_utf8(key));
    let rest = b + "{page}"@ + c;
    assert(a + "{key}"@ + b + "{page}"@ + c =~= a + "{key}"@ + rest);
    assert forall|i: int| 0 <= i < rest.len() implies !occurs_at(rest, "{key}"@, i) by {
        if occurs_at(rest, "{key}"@, i) {
            assert(rest.subrange(i, i + 5)[0] == rest[i]);
            assert(rest.subrange(i, i + 5)[1] == rest[i + 1]);
            if i < b.len() {
                assert(rest[i] == b[i]);
            } else if i > b.len() {
                if i < b.len() + 6 {
                    assert(rest[i] == "{page}"@[i - b.len()]);
                } else {
                    assert(rest[i] == c[i - b.len() - 6]);
                }
            } else {
                assert(rest[i + 1] == "{page}"@[1]);
            }
        }
    }
    lemma_replaced_once(a, "{key}"@, rest, k);
    let t = a + k + rest;
    lemma_absent_replaced(t, "searchKey"@, k);
    let head = a + k + b;
    assert(t =~= head + "{page}"@ + c);
    assert forall|i: int| 0 <= i < head.len() implies #[trigger] head[i] != '{' by {
        if i < a.len() {
            assert(head[i] == a[i]);
        } else if i < a.len() + k.len() {
            assert(head[i] == k[i - a.len()]);
        } else {
            assert(head[i] == b[i - a.len() - k.len()]);
        }
    }
    assert forall|i: int| 0 <= i < c.len() implies !occurs_at(c, "{page}"@, i) by {
        if occurs_at(c, "{page}"@, i) {
            assert(c.subrange(i, i + 6)[0] == c[i]);
        }
    }
    lemma_replaced_once(head, "{page}"@, c, decimal_of(page));
    lemma_absent_replaced(head + decimal_of(page) + c, "searchPage"@, decimal_of(page));
    assert(writes_key(k, key));
}

/// A page choice in an address is replaced by the choice for the page, of those
/// that it lists and that are not blank; the address around it stays.
pub proof fn law_page_choice_is_made(m: MatchesV, page: int)
    requires
        m.found.len() == 1,
    ensures
        ({
            let choices = trimmed_ones(split_of(group_text(m.found[0].groups, 1), ","@));
            &&& 1 <= page <= choices.len() ==> found_choices_made(m, page) == m.found[0].before + choices[page - 1] + m.tail
            &&& page > choices.len() > 0 ==> found_choices_made(m, page) == m.found[0].before + choices[choices.len() - 1]
                + m.tail
        }),
{
    let parts = split_of(group_text(m.found[0].groups, 1), ","@);
    lemma_trimmed_ones(parts, parts.len() as int);
    assert(parts.take(parts.len() as int) =~= parts);
    reveal_with_fuel(assembled, 2);
    let x = page_choices(m.found, page);
    assert(x[0] == page_choice(choices_in(parts), page));
    assert(Seq::<char>::empty() + m.found[0].before + x[0] + m.tail =~= m.found[0].before + x[0] + m.tail);
}

/// A template in an address is replaced by what its script gives, which sees the
/// key and the page; the address around it stays.
pub proof fn law_url_template_is_filled(
    a: Seq<char>,
    script: Seq<char>,
    b: Seq<char>,
    ask: UrlAskV,
    t: Seq<char>,
    w: World,
    o: Oracle,
)
    requires
        forall|i: int| 0 <= i < a.len() ==> #[trigger] a[i] != '{',
        forall|i: int| 0 <= i < script.len() ==> #[trigger] script[i] != '}',
        forall|i: int| 0 <= i < b.len() ==> #[trigger] b[i] != '{',
        ({
            let rule = a + "{{"@ + script + "}}"@ + b;
            called(
                url_call(trim_of(script), rule, ask.key, ask.page, ask.source, ask.base, None, true),
                w,
                o,
            ).0 == Ok::<Seq<char>, Seq<char>>(t)
        }),
    ensures
        url_templates_from(a + "{{"@ + script + "}}"@ + b, 0, ask, w, o).0 == Ok::<Seq<char>, Seq<char>>(a + t + b),
{
    reveal_strlit("{{");
    reveal_strlit("}}");
    let rule = a + "{{"@ + script + "}}"@ + b;
    let s = a.len() as int;
    let e = s + 2 + script.len();
    lemma_find_from(rule, "{{"@, 0);
    assert(rule.subrange(s, s + 2) =~= "{{"@);
    assert(occurs_at(rule, "{{"@, s));
    if let Some(k) = find_from(rule, "{{"@, 0) {
        if k < s {
            assert(rule.subrange(k, k + 2)[0] == rule[k]);
            assert(rule[k] == a[k]);
        }
    }
    assert(find_from(rule, "{{"@, 0) == Some(s));
    lemma_find_from(rule, "}}"@, s + 2);
    assert(rule.subrange(e, e + 2) =~= "}}"@);
    assert(occurs_at(rule, "}}"@, e));
    if let Some(k) = find_from(rule, "}}"@, s + 2) {
        if k < e {
            assert(rule.subrange(k, k + 2)[0] == rule[k]);
            assert(rule[k] == script[k - s - 2]);
        }
    }
    assert(find_from(rule, "}}"@, s + 2) == Some(e));
    assert(rule.subrange(s + 2, e) =~= script);
    lemma_find_from(rule, "{{"@, e + 2);
    if let Some(k) = find_from(rule, "{{"@, e + 2) {
        assert(rule.subrange(k, k + 2)[0] == rule[k]);
        assert(rule[k] == b[k - e - 2]);
    }
    assert(rule.subrange(e + 2, rule.len() as int) =~= b);
    assert(rule.subrange(0, s) =~= a);
    let got = called(url_call(trim_of(script), rule, ask.key, ask.page, ask.source, ask.base, None, true), w, o);
    assert(url_templates_from(rule, e + 2, ask, got.1, o) == (Ok::<Seq<char>, Seq<char>>(b), got.1));
}

/// Whether a text holds no match of a pattern.
pub open spec fn has_none(pattern: Seq<char>, text: Seq<char>) -> bool {
    match regex_matches(pattern, text) {
        Some(m) => m.found.len() == 0 && m.tail == text,
        None => true,
    }
}

/// A rule that is an address and options is a request for that address, seen
/// from the page that it stands on, with those options.
pub proof fn law_plain_rule_is_requested(
    url: Seq<char>,
    options: Seq<char>,
    key: Seq<char>,
    page: i32,
    base: Seq<char>,
    source: BookSource,
    v: JsonV,
    w: World,
    o: Oracle,
)
    requires
        is_plain_address(url),
        is_plain_address(base),
        trim_of(base) == base,
        trim_of(url) == url,
        options.len() > 0,
        options[0] == '{',
        options_of(options) == Ok::<JsonV, Seq<char>>(v),
        crate::crawler::url_rule::text_option(v, "js"@) is None,
        ({
            let rule = url + ","@ + options;
            &&& trim_of(rule) == rule
            &&& has_none("(?is)<js>(.*?)</js>|@js:(.*)$|^js:(.*)$"@, rule)
            &&& !contains_text(rule, "{{"@)
            &&& !contains_text(rule, "@result"@)
            &&& placeholders_filled(rule, key, page as int) == rule
        }),
        has_none("<([^<>]*)>"@, url),
        url_fault(absolute_of(base, url)) is None,
        crate::crawler::url_rule::base_headers(None, source, w, o).0 is Ok,
    ensures
        ({
            let h = crate::crawler::url_rule::base_headers(None, source, w, o).0->Ok_0;
            compiled_request(None, url + ","@ + options, key, page, base, source, w, o).0 == Ok::<RequestV, Seq<char>>(
                request_with(absolute_of(base, url), v, h.0, h.1),
            )
        }),
{
    reveal_strlit(",");
    reveal_strlit("@result");
    reveal_strlit("{{");
    let rule = url + ","@ + options;
    assert(rule[url.len() as int] == ',');
    law_options_are_split_off(url, options);
    law_options_are_split_off(base, options);
    let a = UrlAskV { key, page, source: source.book_source_url@, base };
    let h = crate::crawler::url_rule::base_headers(None, source, w, o);
    assert(find_of(rule, "{{"@) is None);
    assert(rule.subrange(0, rule.len() as int) =~= rule);
    lemma_no_scripts(rule, a, h.1, o);
    lemma_no_choices(url, page as int);
    assert(url_templates_from(rule, 0, a, h.1, o) == (Ok::<Seq<char>, Seq<char>>(rule), h.1));
    assert(choices_before_options(rule, page as int) == rule);
    assert(final_rule(rule, a, h.1, o) == (Ok::<Seq<char>, Seq<char>>(rule), h.1));
}

proof fn lemma_no_choices(url: Seq<char>, page: int)
    requires
        has_none("<([^<>]*)>"@, url),
    ensures
        choices_made(url, page) == url,
{
    if let Some(m) = regex_matches("<([^<>]*)>"@, url) {
        assert(assembled(m, page_choices(m.found, page), 0) == Seq::<char>::empty());
        assert(Seq::<char>::empty() + m.tail =~= m.tail);
    }
}

proof fn lemma_no_scripts(rule: Seq<char>, a: UrlAskV, w: World, o: Oracle)
    requires
        trim_of(rule) == rule,
        rule.len() > 0,
        has_none("(?is)<js>(.*?)</js>|@js:(.*)$|^js:(.*)$"@, rule),
        !contains_text(rule, "@result"@),
    ensures
        scripts_run(rule, a, w, o) == (Ok::<Seq<char>, Seq<char>>(rule), w),
{
    reveal_strlit("@result");
    lemma_absent_replaced(rule, "@result"@, rule);
}

} // verus!
