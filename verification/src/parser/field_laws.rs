//! What holds of the values of rules without marks of their own.

use crate::ext::json::JsonV;
use crate::parser::context::CtxV;
use crate::parser::field::{
    field, interpolated, is_literal, joined_text, template_close, template_value, FieldOut, ScopeV,
};
use crate::parser::html::{element_value, text_list};
use crate::parser::script::{Oracle, World};
use crate::parser::source_rule::{
    get_key, js_split, json_field, mode_of, puts_of, split_replacement, without_puts, ParseMode,
};
use crate::util::chars::{
    find_from, has_prefix, has_prefix_ignore_case, lemma_find_from, lower_ascii, lower_ascii_of, occurs_at, trim_of,
};
use vstd::prelude::*;
use vstd::string::*;

verus! {

/// Whether a rule only selects: it has no template, no variable, no script, no
/// replacement and no mark of a mode.
pub open spec fn is_bare(rule: Seq<char>) -> bool {
    &&& rule.len() > 0
    &&& trim_of(rule) == rule
    &&& rule[0] != '@'
    &&& forall|i: int|
        0 <= i < rule.len() ==> #[trigger] rule[i] != '{' && rule[i] != '#' && rule[i] != ':' && rule[i] != '<' && rule[i]
            != '/' && rule[i] != '$'
}

proof fn lemma_absent(rule: Seq<char>, p: Seq<char>, k: int, i: int)
    requires
        0 <= k < p.len(),
        0 <= i,
        forall|j: int| 0 <= j < rule.len() ==> #[trigger] rule[j] != p[k],
    ensures
        !occurs_at(rule, p, i),
{
    if occurs_at(rule, p, i) {
        assert(rule.subrange(i, i + p.len())[k] == rule[i + k]);
    }
}

proof fn lemma_never(rule: Seq<char>, p: Seq<char>, k: int)
    requires
        0 <= k < p.len(),
        forall|j: int| 0 <= j < rule.len() ==> #[trigger] rule[j] != p[k],
    ensures
        forall|i: int| 0 <= i ==> find_from(rule, p, i) is None,
        crate::util::chars::rfind_of(rule, p) is None,
        !has_prefix(rule, p),
{
    assert forall|i: int| 0 <= i implies find_from(rule, p, i) is None by {
        lemma_find_from(rule, p, i);
        if let Some(j) = find_from(rule, p, i) {
            lemma_absent(rule, p, k, j);
        }
    }
    lemma_never_back(rule, p, k, rule.len() - p.len());
    lemma_absent(rule, p, k, 0);
}

proof fn lemma_never_back(rule: Seq<char>, p: Seq<char>, k: int, i: int)
    requires
        0 <= k < p.len(),
        forall|j: int| 0 <= j < rule.len() ==> #[trigger] rule[j] != p[k],
    ensures
        crate::util::chars::rfind_from(rule, p, i) is None,
    decreases i + 1,
{
    if i >= 0 {
        lemma_absent(rule, p, k, i);
        lemma_never_back(rule, p, k, i - 1);
    }
}

/// A rule without templates and variables is filled with nothing.
pub proof fn lemma_bare_rule(
    rule: Seq<char>,
    i: int,
    input: Seq<char>,
    base: Seq<char>,
    c: CtxV,
    json: Option<JsonV>,
    w: World,
    o: Oracle,
)
    requires
        0 <= i <= rule.len(),
        forall|j: int| i <= j < rule.len() ==> #[trigger] rule[j] != '{',
    ensures
        interpolated(rule, i, input, base, c, json, w, o) == (rule.subrange(i, rule.len() as int), w),
    decreases rule.len() - i,
{
    reveal_strlit("{{");
    reveal_strlit("@get:{");
    if i < rule.len() {
        lemma_bare_rule(rule, i + 1, input, base, c, json, w, o);
        if occurs_at(rule, "{{"@, i) {
            assert(rule.subrange(i, i + 2)[0] == rule[i]);
        }
        if occurs_at(rule, "@get:{"@, i) {
            assert(rule.subrange(i, i + 6)[5] == rule[i + 5]);
        }
        assert(seq![rule[i]] + rule.subrange(i + 1, rule.len() as int) =~= rule.subrange(i, rule.len() as int));
    } else {
        assert(rule.subrange(i, rule.len() as int) =~= seq![]);
    }
}

proof fn lemma_no_colon(rule: Seq<char>)
    requires
        is_bare(rule),
    ensures
        forall|i: int| 0 <= i < rule.len() ==> #[trigger] lower_ascii_of(rule)[i] != ':',
        lower_ascii_of(rule).len() == rule.len(),
{
}

/// The marks of a rule are none in one that only selects.
proof fn lemma_bare(rule: Seq<char>)
    requires
        is_bare(rule),
    ensures
        get_key(rule) is None,
        without_puts(rule, 0) == rule,
        puts_of(rule, 0) == Seq::<(Seq<char>, Seq<char>)>::empty(),
        split_replacement(rule) == (rule, None::<Seq<char>>),
        js_split(rule) == (rule, None::<Seq<char>>),
        mode_of(rule, ParseMode::Css, false) == (ParseMode::Css, rule),
        mode_of(rule, ParseMode::JsonPath, true) == (ParseMode::JsonPath, rule),
{
    reveal_strlit("@get:{");
    reveal_strlit("@put:");
    reveal_strlit("##");
    reveal_strlit("<js>");
    reveal_strlit("</js>");
    reveal_strlit("@js:");
    reveal_strlit("@css:");
    reveal_strlit("@@");
    reveal_strlit("@xpath:");
    reveal_strlit("@json:");
    reveal_strlit("@regex:");
    reveal_strlit("js:");
    reveal_strlit("$.");
    reveal_strlit("$[");
    reveal_strlit("/");
    reveal_strlit("./");
    reveal_strlit(":");
    lemma_no_colon(rule);
    let low = lower_ascii_of(rule);
    lemma_never(rule, "@get:{"@, 5);
    lemma_never(low, "@put:"@, 4);
    assert(rule.subrange(0, rule.len() as int) =~= rule);
    lemma_never(rule, "##"@, 0);
    lemma_never(rule, "<js>"@, 0);
    lemma_never(low, "@js:"@, 3);
    lemma_never(rule, "$."@, 0);
    lemma_never(rule, "$["@, 0);
    lemma_never(rule, "/"@, 0);
    lemma_never(rule, "./"@, 1);
    lemma_never(rule, ":"@, 0);
    if has_prefix(rule, "@@"@) {
        assert(rule.subrange(0, 2)[0] == rule[0]);
    }
    lemma_no_mark(rule, "@css:"@, 4);
    lemma_no_mark(rule, "@xpath:"@, 6);
    lemma_no_mark(rule, "@json:"@, 5);
    lemma_no_mark(rule, "@regex:"@, 6);
    lemma_no_mark(rule, "js:"@, 2);
    lemma_no_mark(rule, "@js:"@, 3);
    lemma_lower_mark();
}

proof fn lemma_lower_mark()
    ensures
        lower_ascii_of("@js:"@) == "@js:"@,
{
    reveal_strlit("@js:");
    assert(lower_ascii_of("@js:"@) =~= "@js:"@);
}

proof fn lemma_no_mark(rule: Seq<char>, p: Seq<char>, k: int)
    requires
        is_bare(rule),
        0 <= k < p.len(),
        p[k] == ':',
    ensures
        !has_prefix_ignore_case(rule, p),
{
    if has_prefix_ignore_case(rule, p) {
        let x = rule.subrange(0, p.len() as int);
        assert(lower_ascii_of(x)[k] == lower_ascii(x[k]));
        assert(lower_ascii_of(p)[k] == lower_ascii(p[k]));
        assert(x[k] == rule[k]);
    }
}

/// A rule that only selects gives the first value that it selects on a page,
/// unless that is blank, and changes nothing.
pub proof fn law_value_on_page(html: Seq<char>, rule: Seq<char>, base: Seq<char>, c: CtxV, w: World, o: Oracle)
    requires
        is_bare(rule),
    ensures
        ({
            let all = text_list(html, rule);
            field(ScopeV::Page(html), rule, base, c, w, o) == FieldOut {
                value: if all.len() > 0 && all[0].len() > 0 {
                    Some(all[0])
                } else {
                    None
                },
                ctx: c,
                w,
            }
        }),
{
    let s = ScopeV::Page(html);
    lemma_bare(rule);
    lemma_bare_rule(rule, 0, crate::parser::field::scope_input(s), base, c, None, w, o);
    assert(rule.subrange(0, rule.len() as int) =~= rule);
    lemma_no_puts(s, rule, base, c, w, o);
}

proof fn lemma_no_puts(s: ScopeV, rule: Seq<char>, base: Seq<char>, c: CtxV, w: World, o: Oracle)
    ensures
        crate::parser::field::put_all(s, Seq::<(Seq<char>, Seq<char>)>::empty(), 0, rule.len(), base, c, w, o) == (c, w),
{
}

/// A rule that only selects gives of an element the value that it leads to,
/// unless that is blank, and changes nothing.
pub proof fn law_value_of_element(
    html: Seq<char>,
    i: int,
    rule: Seq<char>,
    base: Seq<char>,
    c: CtxV,
    w: World,
    o: Oracle,
)
    requires
        is_bare(rule),
    ensures
        ({
            let got = element_value(html, i, rule);
            field(ScopeV::Element(html, i), rule, base, c, w, o) == FieldOut {
                value: if got is Some && got->0.len() > 0 {
                    got
                } else {
                    None
                },
                ctx: c,
                w,
            }
        }),
{
    let s = ScopeV::Element(html, i);
    lemma_bare(rule);
    lemma_bare_rule(rule, 0, crate::parser::field::scope_input(s), base, c, None, w, o);
    assert(rule.subrange(0, rule.len() as int) =~= rule);
    lemma_no_puts(s, rule, base, c, w, o);
}

/// A rule that only selects gives of a JSON value what it picks there, unless
/// that is blank; one that reads as an address or a list stands for itself.
pub proof fn law_value_of_json(v: JsonV, rule: Seq<char>, base: Seq<char>, c: CtxV, w: World, o: Oracle)
    requires
        is_bare(rule),
    ensures
        ({
            let got = if is_literal(rule) {
                Some(rule)
            } else {
                json_field(v, rule)
            };
            field(ScopeV::Value(v), rule, base, c, w, o) == FieldOut {
                value: if got is Some && got->0.len() > 0 {
                    got
                } else {
                    None
                },
                ctx: c,
                w,
            }
        }),
{
    let s = ScopeV::Value(v);
    lemma_bare(rule);
    lemma_bare_rule(rule, 0, crate::parser::field::scope_input(s), base, c, Some(v), w, o);
    assert(rule.subrange(0, rule.len() as int) =~= rule);
    lemma_no_puts(s, rule, base, c, w, o);
}

proof fn lemma_copied(
    rule: Seq<char>,
    i: int,
    k: int,
    input: Seq<char>,
    base: Seq<char>,
    c: CtxV,
    json: Option<JsonV>,
    w: World,
    o: Oracle,
)
    requires
        0 <= i <= k <= rule.len(),
        forall|j: int| i <= j < k ==> #[trigger] rule[j] != '{' && rule[j] != '@',
    ensures
        interpolated(rule, i, input, base, c, json, w, o) == joined_text(
            rule.subrange(i, k),
            interpolated(rule, k, input, base, c, json, w, o),
        ),
    decreases k - i,
{
    reveal_strlit("{{");
    reveal_strlit("@get:{");
    let rest = interpolated(rule, k, input, base, c, json, w, o);
    if i < k {
        lemma_copied(rule, i + 1, k, input, base, c, json, w, o);
        if occurs_at(rule, "{{"@, i) {
            assert(rule.subrange(i, i + 2)[0] == rule[i]);
        }
        if occurs_at(rule, "@get:{"@, i) {
            assert(rule.subrange(i, i + 6)[0] == rule[i]);
        }
        assert(seq![rule[i]] + (rule.subrange(i + 1, k) + rest.0) =~= rule.subrange(i, k) + rest.0);
    } else {
        assert(rule.subrange(i, k) + rest.0 =~= rest.0);
    }
}

proof fn lemma_close(rule: Seq<char>, i: int, k: int)
    requires
        0 <= i <= k,
        k + 1 < rule.len(),
        forall|j: int| i <= j < k ==> #[trigger] rule[j] != '{' && rule[j] != '}',
        rule[k] == '}',
        rule[k + 1] == '}',
    ensures
        template_close(rule, i, 0) == Some(k),
    decreases k - i,
{
    if i < k {
        lemma_close(rule, i + 1, k);
    }
}

/// A template is replaced by its value, and the text around it stays.
pub proof fn law_template_is_filled(
    head: Seq<char>,
    expr: Seq<char>,
    tail: Seq<char>,
    input: Seq<char>,
    base: Seq<char>,
    c: CtxV,
    json: Option<JsonV>,
    w: World,
    o: Oracle,
)
    requires
        forall|i: int| 0 <= i < head.len() ==> #[trigger] head[i] != '{' && head[i] != '@',
        forall|i: int| 0 <= i < expr.len() ==> #[trigger] expr[i] != '{' && expr[i] != '}',
        forall|i: int| 0 <= i < tail.len() ==> #[trigger] tail[i] != '{',
    ensures
        ({
            let v = template_value(trim_of(expr), input, base, c, json, w, o);
            interpolated(head + "{{"@ + expr + "}}"@ + tail, 0, input, base, c, json, w, o) == (
                head + v.0 + tail,
                v.1,
            )
        }),
{
    reveal_strlit("{{");
    reveal_strlit("}}");
    let rule = head + "{{"@ + expr + "}}"@ + tail;
    let k = head.len() as int;
    let e = k + 2 + expr.len();
    assert(forall|j: int| 0 <= j < k ==> #[trigger] rule[j] == head[j]);
    lemma_copied(rule, 0, k, input, base, c, json, w, o);
    assert(rule.subrange(0, k) =~= head);
    assert(rule.subrange(k, k + 2) =~= "{{"@);
    assert forall|j: int| k + 2 <= j < e implies #[trigger] rule[j] != '{' && rule[j] != '}' by {
        assert(rule[j] == expr[j - k - 2]);
    }
    assert(rule[e] == "}}"@[0] && rule[e + 1] == "}}"@[1]);
    lemma_close(rule, k + 2, e);
    assert(rule.subrange(k + 2, e) =~= expr);
    let v = template_value(trim_of(expr), input, base, c, json, w, o);
    assert forall|j: int| e + 2 <= j < rule.len() implies #[trigger] rule[j] != '{' by {
        assert(rule[j] == tail[j - e - 2]);
    }
    lemma_bare_rule(rule, e + 2, input, base, c, json, v.1, o);
    assert(rule.subrange(e + 2, rule.len() as int) =~= tail);
    assert(head + (v.0 + tail) =~= head + v.0 + tail);
}

} // verus!
