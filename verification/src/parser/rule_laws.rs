//! What holds of the modes of rules, of the variables that they set and of the
//! rows that expressions give.

use crate::crawler::address_laws::law_number_reads_back;
use crate::ext::regexes::{assembled, regex_matches, MatchesV};
use crate::parser::context::{context_get, context_put, context_value, law_get_after_set, CtxV};
use crate::parser::field::{field, or_blank, put_all, ScopeV};
use crate::parser::markup::group_text;
use crate::parser::rule_analyzer::{first_delimiter_at, next_delimiter, scan_start, scan_step, split_result, Scan};
use crate::parser::script::{Oracle, World};
use crate::parser::source_rule::{
    capture_rows, get_key, match_rows, mode_of, placeholders_filled, puts_of, rows_in, stage_pattern, stage_rows,
    ParseMode,
};
use crate::util::chars::{
    all_digits, decimal_of, has_prefix, has_prefix_ignore_case, is_digit, is_space, lemma_solid_ends, lower_ascii,
    lower_ascii_of, occurs_at, trim_of,
};
use vstd::prelude::*;
use vstd::string::*;

verus! {

proof fn lemma_marked(mark: Seq<char>, x: Seq<char>)
    requires
        mark.len() > 0,
        !is_space(mark[0]),
        x.len() > 0,
        !is_space(x[0]),
        !is_space(x.last()),
    ensures
        trim_of(mark + x) == mark + x,
        trim_of(x) == x,
        has_prefix(mark + x, mark),
        has_prefix_ignore_case(mark + x, mark),
        (mark + x).subrange(mark.len() as int, (mark + x).len() as int) == x,
{
    let r = mark + x;
    assert(r[0] == mark[0] && r.last() == x.last());
    lemma_solid_ends(r);
    lemma_solid_ends(x);
    assert(r.subrange(0, mark.len() as int) =~= mark);
    assert(r.subrange(mark.len() as int, r.len() as int) =~= x);
}

proof fn lemma_unmarked(r: Seq<char>, mark: Seq<char>, k: int)
    requires
        0 <= k < mark.len(),
        k < r.len() ==> lower_ascii(r[k]) != lower_ascii(mark[k]),
    ensures
        !has_prefix_ignore_case(r, mark),
        !has_prefix(r, mark),
{
    if mark.len() <= r.len() {
        let s = r.subrange(0, mark.len() as int);
        assert(s[k] == r[k]);
        assert(lower_ascii_of(s)[k] == lower_ascii(r[k]));
        assert(lower_ascii_of(mark)[k] == lower_ascii(mark[k]));
    }
}

/// The mark at the start of a rule tells its mode, whatever the page is, and is
/// no part of the rule.
pub proof fn law_mark_tells_mode(x: Seq<char>, json: bool)
    requires
        x.len() > 0,
        !is_space(x[0]),
        !is_space(x.last()),
    ensures
        mode_of("@css:"@ + x, ParseMode::Css, json) == (ParseMode::Css, x),
        mode_of("@@"@ + x, ParseMode::Css, json) == (ParseMode::Css, x),
        mode_of("@xpath:"@ + x, ParseMode::Css, json) == (ParseMode::XPath, x),
        mode_of("@json:"@ + x, ParseMode::Css, json) == (ParseMode::JsonPath, x),
        mode_of("@regex:"@ + x, ParseMode::Css, json) == (ParseMode::Regex, x),
        mode_of("js:"@ + x, ParseMode::Css, json) == (ParseMode::Js, x),
        mode_of("@js:"@ + x, ParseMode::Css, json) == (ParseMode::Js, x),
        mode_of("<js>"@ + x, ParseMode::Css, json) == (ParseMode::Js, "<js>"@ + x),
{
    reveal_strlit("@css:");
    reveal_strlit("@@");
    reveal_strlit("@xpath:");
    reveal_strlit("@json:");
    reveal_strlit("@regex:");
    reveal_strlit("js:");
    reveal_strlit("@js:");
    reveal_strlit("<js>");
    let css = "@css:"@;
    let at = "@@"@;
    let xpath = "@xpath:"@;
    let jsonp = "@json:"@;
    let regex = "@regex:"@;
    let js = "js:"@;
    let ajs = "@js:"@;
    let block = "<js>"@;
    lemma_marked(css, x);
    lemma_marked(at, x);
    lemma_marked(xpath, x);
    lemma_marked(jsonp, x);
    lemma_marked(regex, x);
    lemma_marked(js, x);
    lemma_marked(ajs, x);
    lemma_marked(block, x);
    lemma_unmarked(at + x, css, 1);
    lemma_unmarked(xpath + x, css, 1);
    lemma_unmarked(xpath + x, at, 1);
    lemma_unmarked(jsonp + x, css, 1);
    lemma_unmarked(jsonp + x, at, 1);
    lemma_unmarked(jsonp + x, xpath, 1);
    lemma_unmarked(regex + x, css, 1);
    lemma_unmarked(regex + x, at, 1);
    lemma_unmarked(regex + x, xpath, 1);
    lemma_unmarked(regex + x, jsonp, 1);
    lemma_unmarked(js + x, css, 0);
    lemma_unmarked(js + x, at, 0);
    lemma_unmarked(js + x, xpath, 0);
    lemma_unmarked(js + x, jsonp, 0);
    lemma_unmarked(js + x, regex, 0);
    lemma_unmarked(ajs + x, css, 1);
    lemma_unmarked(ajs + x, at, 1);
    lemma_unmarked(ajs + x, xpath, 1);
    lemma_unmarked(ajs + x, jsonp, 3);
    lemma_unmarked(ajs + x, regex, 1);
    lemma_unmarked(ajs + x, js, 0);
    lemma_unmarked(block + x, css, 0);
    lemma_unmarked(block + x, at, 0);
    lemma_unmarked(block + x, xpath, 0);
    lemma_unmarked(block + x, jsonp, 0);
    lemma_unmarked(block + x, regex, 0);
    lemma_unmarked(block + x, js, 0);
    lemma_unmarked(block + x, ajs, 0);
}

/// Without a mark, a rule is a path on JSON and wherever it starts as one does,
/// an expression where it starts with a slash or a colon, and else as the page
/// has it.
pub proof fn law_unmarked_rule(x: Seq<char>)
    requires
        x.len() > 0,
        !is_space(x[0]),
        !is_space(x.last()),
        x[0] != '@',
        x[0] != '<',
        lower_ascii(x[0]) != 'j',
    ensures
        mode_of(x, ParseMode::Css, true) == (ParseMode::JsonPath, x),
        x[0] == '/' ==> mode_of(x, ParseMode::Css, false) == (ParseMode::XPath, x),
        x[0] == ':' ==> mode_of(x, ParseMode::Css, false) == (ParseMode::Regex, x),
        x.len() > 1 && x[0] == '$' && (x[1] == '.' || x[1] == '[') ==> mode_of(x, ParseMode::Css, false) == (
            ParseMode::JsonPath,
            x,
        ),
        x[0] != '/' && x[0] != ':' && x[0] != '$' && x[0] != '.' ==> mode_of(x, ParseMode::Css, false) == (
            ParseMode::Css,
            x,
        ),
{
    reveal_strlit("@css:");
    reveal_strlit("@@");
    reveal_strlit("@xpath:");
    reveal_strlit("@json:");
    reveal_strlit("@regex:");
    reveal_strlit("js:");
    reveal_strlit("@js:");
    reveal_strlit("<js>");
    reveal_strlit("$.");
    reveal_strlit("$[");
    reveal_strlit("/");
    reveal_strlit("./");
    reveal_strlit(":");
    lemma_solid_ends(x);
    lemma_unmarked(x, "@css:"@, 0);
    lemma_unmarked(x, "@@"@, 0);
    lemma_unmarked(x, "@xpath:"@, 0);
    lemma_unmarked(x, "@json:"@, 0);
    lemma_unmarked(x, "@regex:"@, 0);
    lemma_unmarked(x, "js:"@, 0);
    lemma_unmarked(x, "@js:"@, 0);
    lemma_unmarked(x, "<js>"@, 0);
    assert(x.subrange(0, 1) =~= seq![x[0]]);
    assert("/"@ =~= seq!['/']);
    assert(":"@ =~= seq![':']);
    if x.len() > 1 {
        assert(x.subrange(0, 2) =~= seq![x[0], x[1]]);
        assert("$."@ =~= seq!['$', '.']);
        assert("$["@ =~= seq!['$', '[']);
    }
    if x[0] != '$' {
        lemma_unmarked(x, "$."@, 0);
        lemma_unmarked(x, "$["@, 0);
    }
    if x[0] != '/' {
        lemma_unmarked(x, "/"@, 0);
    }
    if x[0] != '.' {
        lemma_unmarked(x, "./"@, 0);
    }
    if x[0] != ':' {
        lemma_unmarked(x, ":"@, 0);
    }
}

/// A variable that a rule sets reads, for the rules after it, as the value of
/// the rule that it is set by, blank where that gives nothing.
pub proof fn law_variable_set_by_rule(
    s: ScopeV,
    rule: Seq<char>,
    key: Seq<char>,
    by: Seq<char>,
    base: Seq<char>,
    c: CtxV,
    w: World,
    v: World,
    o: Oracle,
)
    requires
        !(s is Row),
        get_key(rule) is None,
        puts_of(rule, 0) == seq![(key, by)],
        by.len() < rule.len(),
        key != "bookName"@,
        key != "title"@,
        ({
            let inner = field(s, by, base, c, w, o).ctx;
            inner.chapter is Some || inner.book is Some || inner.rule_data is Some
        }),
    ensures
        context_get(field(s, rule, base, c, w, o).ctx, key, v, o).0 == Some(
            match field(s, by, base, c, w, o).value {
                Some(t) => t,
                None => seq![],
            },
        ),
{
    let got = field(s, by, base, c, w, o);
    let value = or_blank(got.value);
    lemma_context_of_field(s, rule, base, c, w, o);
    lemma_one_put(s, seq![(key, by)], rule.len(), base, c, w, o);
    lemma_put_is_there(got.ctx, key, value, got.w);
}

proof fn lemma_put_is_there(c: CtxV, key: Seq<char>, value: Seq<char>, w: World)
    requires
        c.chapter is Some || c.book is Some || c.rule_data is Some,
    ensures
        context_value(context_put(c, key, value, w).0, key) == Some(value),
{
    match (c.chapter, c.book, c.rule_data) {
        (Some(m), _, _) => law_get_after_set(m, key, value),
        (None, Some(m), _) => law_get_after_set(m, key, value),
        (None, None, Some(m)) => law_get_after_set(m, key, value),
        (None, None, None) => {},
    }
}

proof fn lemma_context_of_field(s: ScopeV, rule: Seq<char>, base: Seq<char>, c: CtxV, w: World, o: Oracle)
    requires
        get_key(rule) is None,
    ensures
        field(s, rule, base, c, w, o).ctx == put_all(
            s,
            puts_of(rule, 0),
            puts_of(rule, 0).len() as int,
            rule.len(),
            base,
            c,
            w,
            o,
        ).0,
{
}

proof fn lemma_one_put(
    s: ScopeV,
    puts: Seq<(Seq<char>, Seq<char>)>,
    bound: nat,
    base: Seq<char>,
    c: CtxV,
    w: World,
    o: Oracle,
)
    requires
        puts.len() == 1,
        !(s is Row),
        puts[0].1.len() < bound,
    ensures
        ({
            let got = field(s, puts[0].1, base, c, w, o);
            put_all(s, puts, 1, bound, base, c, w, o) == context_put(got.ctx, puts[0].0, or_blank(got.value), got.w)
        }),
{
    assert(put_all(s, puts, 0, bound, base, c, w, o) == (c, w));
}

proof fn lemma_no_stage(rule: Seq<char>, i: int, s: Scan)
    requires
        0 <= i <= rule.len(),
        forall|j: int| 0 <= j < rule.len() ==> #[trigger] rule[j] != '&',
    ensures
        next_delimiter(rule, seq!["&&"@], i, s) is None,
    decreases rule.len() - i,
{
    reveal_strlit("&&");
    reveal_with_fuel(first_delimiter_at, 2);
    if i < rule.len() {
        if occurs_at(rule, "&&"@, i) {
            assert(rule.subrange(i, i + 2)[0] == rule[i]);
        }
        assert(seq!["&&"@][0] == "&&"@);
        assert(first_delimiter_at(rule, seq!["&&"@], i, 0) is None);
        lemma_no_stage(rule, i + 1, scan_step(s, rule[i]));
    }
}

/// The rows of an expression are the groups of its matches, in their order.
pub proof fn law_rows_are_matches(rule: Seq<char>, input: Seq<char>, m: MatchesV)
    requires
        trim_of(rule) == rule,
        forall|j: int| 0 <= j < rule.len() ==> #[trigger] rule[j] != '&',
        stage_pattern(rule) == rule,
        regex_matches(rule, input) == Some(m),
    ensures
        capture_rows(rule, input).len() == m.found.len(),
        forall|i: int| 0 <= i < m.found.len() ==> #[trigger] capture_rows(rule, input)[i] == m.found[i].groups,
{
    lemma_no_stage(rule, 0, scan_start());
    let parts = split_result(rule, seq!["&&"@]);
    assert(parts =~= seq![rule]);
    reveal_with_fuel(rows_in, 2);
    assert(seq![input][0] == input);
    assert(Seq::<Seq<Option<Seq<char>>>>::empty() + match_rows(m) =~= match_rows(m));
}

/// The groups of the matches of an expression in each of some texts.
pub open spec fn each_rows(pattern: Seq<char>, inputs: Seq<Seq<char>>) -> Seq<Seq<Seq<Option<Seq<char>>>>> {
    Seq::new(inputs.len(), |i: int| match_rows(regex_matches(pattern, inputs[i])->0))
}

proof fn lemma_rows(pattern: Seq<char>, inputs: Seq<Seq<char>>, n: int)
    requires
        0 <= n <= inputs.len(),
        forall|i: int| 0 <= i < inputs.len() ==> regex_matches(pattern, #[trigger] inputs[i]) is Some,
    ensures
        rows_in(pattern, inputs, n) == Some(each_rows(pattern, inputs.take(n)).flatten()),
    decreases n,
{
    broadcast use Seq::lemma_flatten_push;

    if n > 0 {
        lemma_rows(pattern, inputs, n - 1);
        assert(regex_matches(pattern, inputs[n - 1]) is Some);
        assert(each_rows(pattern, inputs.take(n)) =~= each_rows(pattern, inputs.take(n - 1)).push(
            match_rows(regex_matches(pattern, inputs[n - 1])->0),
        ));
    } else {
        assert(each_rows(pattern, inputs.take(0)) =~= seq![]);
    }
}

/// A second stage looks for its matches within each match of the first, all of
/// them and in their order.
pub proof fn law_second_stage(p: Seq<char>, q: Seq<char>, input: Seq<char>, m: MatchesV)
    requires
        regex_matches(stage_pattern(p), input) == Some(m),
        forall|i: int|
            0 <= i < m.found.len() ==> regex_matches(stage_pattern(q), group_text((#[trigger] m.found[i]).groups, 0)) is Some,
    ensures
        stage_rows(seq![p, q], 0, seq![input]) == each_rows(
            stage_pattern(q),
            Seq::new(m.found.len(), |i: int| group_text(m.found[i].groups, 0)),
        ).flatten(),
{
    let parts = seq![p, q];
    assert(parts[0] == p && parts[1] == q);
    reveal_with_fuel(rows_in, 2);
    reveal_with_fuel(stage_rows, 2);
    assert(seq![input][0] == input);
    assert(Seq::<Seq<Option<Seq<char>>>>::empty() + match_rows(m) =~= match_rows(m));
    let inner = Seq::new(m.found.len(), |i: int| group_text(m.found[i].groups, 0));
    assert(crate::parser::source_rule::whole_texts(match_rows(m)) =~= inner);
    assert forall|i: int| 0 <= i < inner.len() implies regex_matches(stage_pattern(q), #[trigger] inner[i]) is Some by {
        assert(inner[i] == group_text(m.found[i].groups, 0));
    }
    lemma_rows(stage_pattern(q), inner, inner.len() as int);
    assert(inner.take(inner.len() as int) =~= inner);
}

/// A placeholder of a rule is replaced by the group of its number, and the rule
/// around it stays; the number of a group that is not there stays too.
pub proof fn law_group_is_filled_in(m: MatchesV, row: Seq<Option<Seq<char>>>, n: int)
    requires
        m.found.len() == 1,
        1 <= n < 100,
        m.found[0].groups.len() > 1,
        m.found[0].groups[1] == Some(decimal_of(n)),
    ensures
        n < row.len() && row[n] is Some ==> placeholders_filled(m, row) == m.found[0].before + row[n]->0 + m.tail,
        n >= row.len() ==> placeholders_filled(m, row) == m.found[0].before + group_text(m.found[0].groups, 0) + m.tail,
{
    law_number_reads_back(n);
    let d = decimal_of(n);
    assert(is_digit(d[0])) by {
        assert(all_digits(d));
    }
    reveal_with_fuel(assembled, 2);
    let x = crate::parser::source_rule::placeholder_texts(m.found, row);
    assert(Seq::<char>::empty() + m.found[0].before + x[0] + m.tail =~= m.found[0].before + x[0] + m.tail);
}

} // verus!
