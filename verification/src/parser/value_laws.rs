//! What holds of rules that operators join, and of the values of elements.

use crate::ext::dom::{dom_of, inner_html_of, outer_html_of, AttrV, KindV, NodeV};
use crate::parser::chain_laws::{
    are_apart, are_trimmed, is_chain, is_mark, is_quiet, is_step, law_rule_is_split, strung,
};
use crate::parser::html::{
    at_mark, attr_from, chain_groups, chain_mark, chain_of, combination_marks, combined, element_value, extracted,
    filled, first_extracted, joined, list_of, matches_of, own_text_of, own_texts, rest_values, selector_of, text_list,
    text_list_groups, texts_below, texts_in, texts_under,
};
use crate::parser::rule_analyzer::{
    column, columns, first_delimiter_at, next_delimiter, scan_start, scan_step, split_delimiter, split_result,
};
use crate::util::chars::{is_space, join_of, lemma_solid_ends, lemma_trim_ends, occurs_at, strip_prefix_of, trim_of};
use vstd::prelude::*;
use vstd::string::*;

verus! {

proof fn lemma_all<T>(groups: Seq<Seq<T>>, n: int)
    requires
        1 <= n <= groups.len(),
    ensures
        joined(groups, "&&"@, n) == groups.take(n).flatten(),
    decreases n,
{
    broadcast use {Seq::lemma_flatten_push, Seq::lemma_flatten_singleton};

    if n > 1 {
        lemma_all(groups, n - 1);
        assert(groups.take(n) =~= groups.take(n - 1).push(groups[n - 1]));
    } else {
        groups.take(1).lemma_flatten_one_element();
    }
}

proof fn lemma_any<T>(groups: Seq<Seq<T>>, n: int, k: int)
    requires
        1 <= n <= groups.len(),
        0 <= k <= groups.len(),
        k < groups.len() ==> groups[k].len() > 0,
        forall|i: int| 0 <= i < k ==> (#[trigger] groups[i]).len() == 0,
    ensures
        k < n ==> joined(groups, "||"@, n) == groups[k],
        k >= n ==> joined(groups, "||"@, n).len() == 0,
    decreases n,
{
    reveal_strlit("&&");
    reveal_strlit("||");
    assert("||"@[0] != "&&"@[0]);
    if n > 1 {
        lemma_any(groups, n - 1, k);
        if k >= n {
            assert(groups[n - 1].len() == 0);
        }
    } else if k > 0 {
        assert(groups[0].len() == 0);
    }
}

/// Of results joined by `&&` all are taken, one list after the other; of those
/// joined by `||` the first that are any.
pub proof fn law_joined_results<T>(groups: Seq<Seq<T>>, k: int)
    requires
        groups.len() > 0,
        0 <= k <= groups.len(),
        k < groups.len() ==> groups[k].len() > 0,
        forall|i: int| 0 <= i < k ==> (#[trigger] groups[i]).len() == 0,
    ensures
        combined(groups, "&&"@) == groups.flatten(),
        k < groups.len() ==> combined(groups, "||"@) == groups[k],
        k == groups.len() ==> combined(groups, "||"@) == Seq::<T>::empty(),
{
    reveal_strlit("&&");
    reveal_strlit("||");
    reveal_strlit("%%");
    assert("||"@[0] != "%%"@[0] && "&&"@[0] != "%%"@[0]);
    lemma_all(groups, groups.len() as int);
    lemma_any(groups, groups.len() as int, k);
    assert(groups.take(groups.len() as int) =~= groups);
    if k == groups.len() {
        assert(combined(groups, "||"@) =~= Seq::empty());
    }
}

/// The first item of each list that has any.
pub open spec fn first_items<T>(groups: Seq<Seq<T>>) -> Seq<T> {
    groups.filter(|g: Seq<T>| g.len() > 0).map_values(|g: Seq<T>| g[0])
}

/// The lists without their first items.
pub open spec fn further_items<T>(groups: Seq<Seq<T>>) -> Seq<Seq<T>> {
    Seq::new(
        groups.len(),
        |i: int|
            if groups[i].len() > 0 {
                groups[i].drop_first()
            } else {
                groups[i]
            },
    )
}

proof fn lemma_first_column<T>(groups: Seq<Seq<T>>)
    ensures
        column(groups, 0) == first_items(groups),
    decreases groups.len(),
{
    reveal(Seq::filter);
    if groups.len() > 0 {
        lemma_first_column(groups.drop_last());
    }
    assert(column(groups, 0) =~= first_items(groups));
}

proof fn lemma_next_column<T>(groups: Seq<Seq<T>>, j: int)
    requires
        j >= 0,
    ensures
        column(groups, j + 1) == column(further_items(groups), j),
    decreases groups.len(),
{
    if groups.len() > 0 {
        lemma_next_column(groups.drop_last(), j);
        assert(further_items(groups).drop_last() =~= further_items(groups.drop_last()));
    }
}

proof fn lemma_next_columns<T>(groups: Seq<Seq<T>>, n: int)
    requires
        n >= 0,
    ensures
        columns(groups, n + 1) == column(groups, 0) + columns(further_items(groups), n),
    decreases n,
{
    if n > 0 {
        lemma_next_columns(groups, n - 1);
        lemma_next_column(groups, n - 1);
        assert(columns(groups, n + 1) =~= column(groups, 0) + columns(further_items(groups), n));
    } else {
        assert(columns(groups, 0) == Seq::<T>::empty());
        assert(columns(groups, 1) =~= column(groups, 0) + columns(further_items(groups), 0));
    }
}

/// Results joined by `%%` come in turn: the first of each list, and then the
/// rest in the same way, for as long as the first list has any.
pub proof fn law_results_in_turn<T>(groups: Seq<Seq<T>>)
    requires
        groups.len() > 0,
    ensures
        groups[0].len() == 0 ==> combined(groups, "%%"@) == Seq::<T>::empty(),
        groups[0].len() > 0 ==> combined(groups, "%%"@) == first_items(groups) + combined(
            further_items(groups),
            "%%"@,
        ),
{
    if groups[0].len() > 0 {
        lemma_first_column(groups);
        lemma_next_columns(groups, groups[0].len() - 1);
        assert(further_items(groups)[0].len() == groups[0].len() - 1);
    }
}

/// The results of rules, one by one.
pub open spec fn each_list(html: Seq<char>, rules: Seq<Seq<char>>) -> Seq<Seq<int>> {
    Seq::new(rules.len(), |i: int| list_of(html, rules[i]))
}

proof fn lemma_rules_apart(rules: Seq<Seq<char>>)
    requires
        forall|i: int| 0 <= i < rules.len() ==> is_chain(#[trigger] rules[i]),
    ensures
        are_trimmed(rules),
        forall|m: int| 0 <= m < combination_marks().len() ==> are_apart(rules, #[trigger] combination_marks()[m]),
{
    reveal_strlit("&&");
    reveal_strlit("||");
    reveal_strlit("%%");
    assert forall|m: int| 0 <= m < combination_marks().len() implies are_apart(rules, #[trigger] combination_marks()[m]) by {
        assert forall|i: int, p: int| 0 <= i < rules.len() && 0 <= p < rules[i].len() implies is_quiet(
            #[trigger] rules[i][p],
        ) && rules[i][p] != combination_marks()[m][0] by {
            assert(is_chain(rules[i]));
        }
    }
    assert forall|i: int| 0 <= i < rules.len() implies (#[trigger] rules[i]).len() > 0 && trim_of(rules[i]) == rules[i] by {
        assert(is_chain(rules[i]));
    }
}

proof fn lemma_one_rule(html: Seq<char>, rule: Seq<char>)
    requires
        is_chain(rule),
    ensures
        split_result(rule, combination_marks()) == seq![rule],
        split_delimiter(rule, combination_marks()) is None,
        list_of(html, rule) == chain_of(html, rule),
{
    let one = seq![rule];
    assert(one[0] == rule);
    lemma_rules_apart(one);
    law_rule_is_split(one, "&&"@, combination_marks());
    assert(strung(one, "&&"@, 0) == rule);
    reveal_strlit("%%");
    assert(chain_groups(html, one)[0] == chain_of(html, rule));
}

proof fn lemma_trimmed_rule(rules: Seq<Seq<char>>, op: Seq<char>, k: int)
    requires
        is_mark(op),
        are_trimmed(rules),
        0 <= k < rules.len(),
    ensures
        strung(rules, op, k).len() > 0,
        !is_space(strung(rules, op, k)[0]),
        !is_space(strung(rules, op, k).last()),
        trim_of(strung(rules, op, k)) == strung(rules, op, k),
    decreases rules.len() - k,
{
    let s = strung(rules, op, k);
    lemma_trim_ends(rules[k]);
    assert(rules[k].len() > 0 && trim_of(rules[k]) == rules[k]);
    if k < rules.len() - 1 {
        lemma_trimmed_rule(rules, op, k + 1);
        assert(s[0] == rules[k][0]);
        assert(s.last() == strung(rules, op, k + 1).last());
    }
    lemma_solid_ends(s);
}

/// Rules joined by an operator select what each of them selects alone, joined
/// as the operator says.
pub proof fn law_joined_rules(html: Seq<char>, rules: Seq<Seq<char>>, op: Seq<char>)
    requires
        rules.len() > 1,
        forall|i: int| 0 <= i < rules.len() ==> is_chain(#[trigger] rules[i]),
        op == "&&"@ || op == "||"@ || op == "%%"@,
    ensures
        list_of(html, strung(rules, op, 0)) == combined(each_list(html, rules), op),
{
    lemma_rules_apart(rules);
    lemma_trimmed_rule(rules, op, 0);
    law_rule_is_split(rules, op, combination_marks());
    assert forall|i: int| 0 <= i < rules.len() implies #[trigger] chain_of(html, rules[i]) == list_of(html, rules[i]) by {
        lemma_one_rule(html, rules[i]);
    }
    assert(chain_groups(html, rules) =~= each_list(html, rules));
}

/// The values of rules, one by one.
pub open spec fn each_text_list(html: Seq<char>, rules: Seq<Seq<char>>) -> Seq<Seq<Seq<char>>> {
    Seq::new(rules.len(), |i: int| text_list(html, rules[i]))
}

proof fn lemma_text_groups(html: Seq<char>, rules: Seq<Seq<char>>, n: int, bound: nat)
    requires
        0 <= n <= rules.len(),
        forall|i: int| 0 <= i < rules.len() ==> (#[trigger] rules[i]).len() < bound,
    ensures
        text_list_groups(html, rules, n, bound) == each_text_list(html, rules.take(n)),
    decreases n,
{
    if n > 0 {
        lemma_text_groups(html, rules, n - 1, bound);
        assert(rules[n - 1].len() < bound);
        assert(each_text_list(html, rules.take(n)) =~= each_text_list(html, rules.take(n - 1)).push(
            text_list(html, rules[n - 1]),
        ));
    }
    assert(text_list_groups(html, rules, n, bound) =~= each_text_list(html, rules.take(n)));
}

proof fn lemma_part_len(rules: Seq<Seq<char>>, op: Seq<char>, k: int, i: int)
    requires
        0 <= k <= i < rules.len(),
    ensures
        rules[i].len() <= strung(rules, op, k).len(),
        k < rules.len() - 1 && op.len() > 0 ==> rules[i].len() < strung(rules, op, k).len(),
    decreases rules.len() - k,
{
    if k < rules.len() - 1 && i > k {
        lemma_part_len(rules, op, k + 1, i);
    }
}

/// Rules joined by an operator take the values that each of them takes alone,
/// joined as the operator says.
pub proof fn law_joined_value_rules(html: Seq<char>, rules: Seq<Seq<char>>, op: Seq<char>)
    requires
        rules.len() > 1,
        forall|i: int| 0 <= i < rules.len() ==> is_chain(#[trigger] rules[i]),
        op == "&&"@ || op == "||"@ || op == "%%"@,
    ensures
        text_list(html, strung(rules, op, 0)) == combined(each_text_list(html, rules), op),
{
    reveal_strlit("&&");
    reveal_strlit("||");
    reveal_strlit("%%");
    lemma_rules_apart(rules);
    law_rule_is_split(rules, op, combination_marks());
    let rule = strung(rules, op, 0);
    assert forall|i: int| 0 <= i < rules.len() implies (#[trigger] rules[i]).len() < rule.len() by {
        lemma_part_len(rules, op, 0, i);
    }
    lemma_text_groups(html, rules, rules.len() as int, rule.len());
    assert(rules.take(rules.len() as int) =~= rules);
}

proof fn lemma_no_double(rule: Seq<char>, i: int)
    requires
        0 <= i <= rule.len(),
        forall|p: int| 0 <= p < rule.len() ==> is_quiet(#[trigger] rule[p]),
        forall|p: int| 0 <= p < rule.len() - 1 && #[trigger] rule[p] == '@' ==> rule[p + 1] != '@',
    ensures
        next_delimiter(rule, chain_mark(), i, scan_start()) is None,
    decreases rule.len() - i,
{
    reveal_strlit("@@");
    reveal_with_fuel(first_delimiter_at, 2);
    if i < rule.len() {
        if occurs_at(rule, "@@"@, i) {
            assert(rule.subrange(i, i + 2)[0] == rule[i]);
            assert(rule.subrange(i, i + 2)[1] == rule[i + 1]);
        }
        assert(chain_mark()[0] == "@@"@);
        assert(first_delimiter_at(rule, chain_mark(), i, 0) is None);
        assert(is_quiet(rule[i]));
        assert(scan_step(scan_start(), rule[i]) == scan_start());
        lemma_no_double(rule, i + 1);
    }
}

/// The values that are there, in order.
pub open spec fn present<T>(found: Seq<Option<T>>) -> Seq<T> {
    found.filter(|v: Option<T>| v is Some).map_values(|v: Option<T>| v->0)
}

/// What an extractor takes from each of some elements.
pub open spec fn each_value(html: Seq<char>, elements: Seq<int>, extractor: Seq<char>) -> Seq<Option<Seq<char>>> {
    Seq::new(elements.len(), |i: int| extracted(html, elements[i], extractor))
}

pub proof fn lemma_present_push<T>(found: Seq<Option<T>>, v: Option<T>)
    ensures
        present(found.push(v)) == match v {
            Some(x) => present(found).push(x),
            None => present(found),
        },
{
    reveal(Seq::filter);
    assert(found.push(v).drop_last() =~= found);
    match v {
        Some(x) => assert(present(found.push(v)) =~= present(found).push(x)),
        None => {},
    }
}

proof fn lemma_step_split(s: Seq<char>)
    requires
        is_step(s),
    ensures
        split_result(s, at_mark()) == seq![s],
        is_chain(s),
{
    reveal_strlit("@");
    let one = seq![s];
    assert(one[0] == s);
    assert(at_mark()[0] == "@"@);
    assert forall|m: int| 0 <= m < at_mark().len() implies are_apart(one, #[trigger] at_mark()[m]) by {
        assert forall|i: int, p: int| 0 <= i < one.len() && 0 <= p < one[i].len() implies is_quiet(
            #[trigger] one[i][p],
        ) && one[i][p] != at_mark()[m][0] by {
            assert(is_step(one[i]));
        }
    }
    law_rule_is_split(one, "@"@, at_mark());
    assert(strung(one, "@"@, 0) == s);
}

/// A plain extractor takes from an element what it extracts there.
proof fn lemma_element_value(html: Seq<char>, i: int, e: Seq<char>)
    requires
        is_step(e),
    ensures
        element_value(html, i, e) == extracted(html, i, e),
{
    lemma_step_split(e);
    reveal_with_fuel(first_extracted, 2);
    let one = seq![i];
    assert(one[0] == i && one.len() == 1);
    assert(first_extracted(html, one, e, 0) == extracted(html, i, e));
}

proof fn lemma_rest_values(html: Seq<char>, s: Seq<int>, e: Seq<char>, n: int)
    requires
        0 <= n <= s.len(),
        is_step(e),
    ensures
        rest_values(html, s, Some(e), n) == present(each_value(html, s.take(n), e)),
    decreases n,
{
    reveal(Seq::filter);
    if n > 0 {
        lemma_rest_values(html, s, e, n - 1);
        lemma_element_value(html, s[n - 1], e);
        assert(each_value(html, s.take(n), e) =~= each_value(html, s.take(n - 1), e).push(extracted(html, s[n - 1], e)));
        lemma_present_push(each_value(html, s.take(n - 1), e), extracted(html, s[n - 1], e));
    } else {
        assert(rest_values(html, s, Some(e), n) =~= present(each_value(html, s.take(n), e)));
    }
}

/// A rule of a selector and an extractor takes the value of every element that
/// the selector matches and that has one, in their order.
pub proof fn law_values_of_elements(html: Seq<char>, x: Seq<char>, e: Seq<char>)
    requires
        is_step(x),
        is_step(e),
    ensures
        text_list(html, x + "@"@ + e) == present(each_value(html, matches_of(html, selector_of(x)), e)),
{
    reveal_strlit("@");
    assert("@"@ =~= seq!['@']);
    let parts = seq![x, e];
    let rule = x + "@"@ + e;
    assert(parts[0] == x && parts[1] == e);
    assert(strung(parts, "@"@, 1) == e);
    assert(strung(parts, "@"@, 0) == rule);
    assert(at_mark()[0] == "@"@);
    assert forall|m: int| 0 <= m < at_mark().len() implies are_apart(parts, #[trigger] at_mark()[m]) by {
        assert forall|i: int, p: int| 0 <= i < parts.len() && 0 <= p < parts[i].len() implies is_quiet(
            #[trigger] parts[i][p],
        ) && parts[i][p] != at_mark()[m][0] by {
            assert(is_step(parts[i]));
        }
    }
    law_rule_is_split(parts, "@"@, at_mark());
    assert forall|p: int| 0 <= p < rule.len() implies is_quiet(#[trigger] rule[p]) && rule[p] != '&' && rule[p] != '|'
        && rule[p] != '%' && (rule[p] == '@' ==> p == x.len()) by {
        if p < x.len() {
            assert(rule[p] == x[p]);
        } else if p > x.len() {
            assert(rule[p] == e[p - x.len() - 1]);
        }
    }
    lemma_trimmed_rule(parts, "@"@, 0);
    assert(is_chain(rule));
    lemma_one_rule(html, rule);
    assert(rule[x.len() as int + 1] == e[0]);
    assert(is_quiet(e[0]) && e[0] != '@');
    lemma_no_double(rule, 0);
    let m = matches_of(html, selector_of(x));
    lemma_rest_values(html, m, e, m.len() as int);
    assert(m.take(m.len() as int) =~= m);
    let rest = parts.subrange(1, 2);
    assert(rest.len() == 1 && rest[0] == e);
    assert(join_of(rest, "@"@) == e);
}

/// A rule of a selector alone takes the text of every element that the selector
/// matches, blank where it has none.
pub proof fn law_texts_of_elements(html: Seq<char>, x: Seq<char>)
    requires
        is_step(x),
    ensures
        ({
            let m = matches_of(html, selector_of(x));
            text_list(html, x) == Seq::new(
                m.len(),
                |i: int|
                    match extracted(html, m[i], "text"@) {
                        Some(t) => t,
                        None => seq![],
                    },
            )
        }),
{
    lemma_step_split(x);
    lemma_one_rule(html, x);
    assert forall|p: int| 0 <= p < x.len() implies is_quiet(#[trigger] x[p]) && x[p] != '@' by {}
    lemma_no_double(x, 0);
    let m = matches_of(html, selector_of(x));
    lemma_plain_texts(html, m, m.len() as int);
}

proof fn lemma_plain_texts(html: Seq<char>, s: Seq<int>, n: int)
    requires
        0 <= n <= s.len(),
    ensures
        rest_values(html, s, None, n) == Seq::new(
            n as nat,
            |i: int|
                match extracted(html, s[i], "text"@) {
                    Some(t) => t,
                    None => seq![],
                },
        ),
    decreases n,
{
    let all = Seq::new(
        n as nat,
        |i: int|
            match extracted(html, s[i], "text"@) {
                Some(t) => t,
                None => seq![],
            },
    );
    if n > 0 {
        lemma_plain_texts(html, s, n - 1);
    }
    assert(rest_values(html, s, None, n) =~= all);
}

/// Of several elements, the first that an extractor takes a value from gives it.
pub proof fn law_first_value(html: Seq<char>, s: Seq<int>, e: Seq<char>)
    ensures
        match first_extracted(html, s, e, 0) {
            Some(v) => exists|k: int|
                0 <= k < s.len() && extracted(html, #[trigger] s[k], e) == Some(v) && forall|j: int|
                    0 <= j < k ==> extracted(html, #[trigger] s[j], e) is None,
            None => forall|j: int| 0 <= j < s.len() ==> extracted(html, #[trigger] s[j], e) is None,
        },
{
    lemma_first_value(html, s, e, 0);
}

proof fn lemma_first_value(html: Seq<char>, s: Seq<int>, e: Seq<char>, i: int)
    requires
        0 <= i <= s.len(),
    ensures
        match first_extracted(html, s, e, i) {
            Some(v) => exists|k: int|
                i <= k < s.len() && extracted(html, #[trigger] s[k], e) == Some(v) && forall|j: int|
                    i <= j < k ==> extracted(html, #[trigger] s[j], e) is None,
            None => forall|j: int| i <= j < s.len() ==> extracted(html, #[trigger] s[j], e) is None,
        },
    decreases s.len() - i,
{
    if i < s.len() {
        if extracted(html, s[i], e) is None {
            lemma_first_value(html, s, e, i + 1);
        }
    }
}

/// An attribute's name takes the value of the element's attribute of that name.
pub proof fn law_attribute_value(html: Seq<char>, i: int, name: Seq<char>, attrs: Seq<AttrV>, k: int)
    requires
        dom_of(html)[i].kind == KindV::Element(attrs),
        is_step(name),
        name != "text"@,
        name != "textNodes"@,
        name != "ownText"@,
        name != "html"@,
        name != "all"@,
        0 <= k <= attrs.len(),
        k < attrs.len() ==> attrs[k].name == name && attrs[k].space.len() == 0,
        forall|j: int| 0 <= j < k ==> (#[trigger] attrs[j]).name != name,
    ensures
        k < attrs.len() ==> extracted(html, i, name) == Some(attrs[k].value),
        k == attrs.len() ==> extracted(html, i, name) is None,
{
    reveal_strlit("@");
    reveal_strlit("attr[");
    if strip_prefix_of(name, "@"@) is Some {
        assert(name.subrange(0, 1)[0] == '@');
    }
    if strip_prefix_of(name, "attr["@) is Some {
        assert(name.subrange(0, 5)[4] == '[');
        assert(is_quiet(name[4]));
    }
    lemma_attribute(attrs, name, 0, k);
}

proof fn lemma_attribute(attrs: Seq<AttrV>, name: Seq<char>, i: int, k: int)
    requires
        0 <= i <= k <= attrs.len(),
        k < attrs.len() ==> attrs[k].name == name && attrs[k].space.len() == 0,
        forall|j: int| 0 <= j < k ==> (#[trigger] attrs[j]).name != name,
    ensures
        k < attrs.len() ==> attr_from(attrs, name, i) == Some(attrs[k].value),
        k == attrs.len() ==> attr_from(attrs, name, i) is None,
    decreases k - i,
{
    if i < k {
        assert(attrs[i].name != name);
        lemma_attribute(attrs, name, i + 1, k);
    }
}

/// The markup of an element is what the document writes for it.
pub proof fn law_markup_value(html: Seq<char>, i: int)
    ensures
        extracted(html, i, "html"@) == Some(inner_html_of(html, i)),
        extracted(html, i, "all"@) == Some(outer_html_of(html, i)),
{
    reveal_strlit("html");
    reveal_strlit("all");
    reveal_strlit("text");
    reveal_strlit("textNodes");
    reveal_strlit("ownText");
    reveal_strlit("@");
    lemma_solid_ends("html"@);
    lemma_solid_ends("all"@);
    assert("html"@.subrange(0, 1)[0] == 'h');
    assert("all"@.subrange(0, 1)[0] == 'a');
    assert("text"@[0] == 't' && "html"@[0] == 'h');
}

/// The texts in and below the children of a node are those of each child, in
/// order; a text has itself.
pub proof fn law_texts_of_children(d: Seq<NodeV>, i: int)
    requires
        0 <= i < d.len(),
        forall|k: int| 0 <= k < d[i].children.len() ==> i < #[trigger] d[i].children[k] < d.len(),
    ensures
        texts_in(d, i, true) == Seq::new(
            d[i].children.len(),
            |k: int|
                match d[d[i].children[k]].kind {
                    KindV::Text(t) => seq![t],
                    _ => texts_in(d, d[i].children[k], true),
                },
        ).flatten(),
{
    let n = d[i].children.len() as int;
    lemma_texts_of_children(d, i, n);
}

proof fn lemma_texts_of_children(d: Seq<NodeV>, i: int, n: int)
    requires
        0 <= i < d.len(),
        0 <= n <= d[i].children.len(),
        forall|k: int| 0 <= k < d[i].children.len() ==> i < #[trigger] d[i].children[k] < d.len(),
    ensures
        texts_below(d, i, n, true) == Seq::new(
            n as nat,
            |k: int|
                match d[d[i].children[k]].kind {
                    KindV::Text(t) => seq![t],
                    _ => texts_in(d, d[i].children[k], true),
                },
        ).flatten(),
    decreases n,
{
    broadcast use Seq::lemma_flatten_push;

    let f = |k: int|
        match d[d[i].children[k]].kind {
            KindV::Text(t) => seq![t],
            _ => texts_in(d, d[i].children[k], true),
        };
    if n > 0 {
        lemma_texts_of_children(d, i, n - 1);
        let c = d[i].children[n - 1];
        assert(i < c < d.len());
        assert(texts_under(d, c, true) == f(n - 1));
        assert(Seq::new(n as nat, f) =~= Seq::new((n - 1) as nat, f).push(f(n - 1)));
    } else {
        assert(Seq::new(0, f) =~= seq![]);
    }
}

/// An element whose only child is a text has that text, trimmed, in every form
/// that text is taken in.
pub proof fn law_text_value(html: Seq<char>, i: int, t: Seq<char>)
    requires
        0 <= i,
        ({
            let d = dom_of(html);
            &&& i < d.len()
            &&& d[i].children.len() == 1
            &&& i < d[i].children[0] < d.len()
            &&& d[d[i].children[0]].kind == KindV::Text(t)
        }),
        trim_of(t).len() > 0,
    ensures
        extracted(html, i, "text"@) == Some(trim_of(t)),
        extracted(html, i, "textNodes"@) == Some(trim_of(t)),
        extracted(html, i, "ownText"@) == Some(trim_of(t)),
{
    reveal_strlit("text");
    reveal_strlit("textNodes");
    reveal_strlit("ownText");
    reveal_strlit("@");
    reveal_strlit(" ");
    lemma_solid_ends("text"@);
    lemma_solid_ends("textNodes"@);
    lemma_solid_ends("ownText"@);
    assert("text"@.subrange(0, 1)[0] == 't');
    assert("textNodes"@.subrange(0, 1)[0] == 't');
    assert("ownText"@.subrange(0, 1)[0] == 'o');
    assert("text"@.len() == 4 && "textNodes"@.len() == 9 && "ownText"@.len() == 7);
    let d = dom_of(html);
    let c = d[i].children[0];
    reveal_with_fuel(texts_below, 2);
    reveal_with_fuel(own_texts, 2);
    reveal_with_fuel(filled, 2);
    assert(Seq::<Seq<char>>::empty() + seq![t] =~= seq![t]);
    assert(texts_in(d, i, true) == seq![t]);
    assert(texts_in(d, i, false) == seq![t]);
    assert(seq![t][0] == t);
    let x = trim_of(t);
    assert(filled(seq![t], 1) =~= seq![x]);
    assert(seq![x][0] == x);
    assert(own_text_of(d, i, " "@) =~= x + " "@);
    lemma_trim_ends(t);
    let y = x + " "@;
    assert(y.last() == ' ' && is_space(' '));
    assert(y[0] == x[0]);
    assert(y.drop_last() =~= x);
    lemma_solid_ends(x);
}

/// The texts that are not blank, trimmed.
pub open spec fn trimmed_ones(parts: Seq<Seq<char>>) -> Seq<Seq<char>> {
    parts.map_values(|t: Seq<char>| trim_of(t)).filter(|t: Seq<char>| t.len() > 0)
}

pub proof fn lemma_trimmed_ones(parts: Seq<Seq<char>>, n: int)
    requires
        0 <= n <= parts.len(),
    ensures
        filled(parts, n) == trimmed_ones(parts.take(n)),
    decreases n,
{
    reveal(Seq::filter);
    let f = |t: Seq<char>| trim_of(t);
    if n > 0 {
        lemma_trimmed_ones(parts, n - 1);
        assert(parts.take(n).map_values(f).drop_last() =~= parts.take(n - 1).map_values(f));
    } else {
        assert(filled(parts, n) =~= trimmed_ones(parts.take(n)));
    }
}

} // verus!
