//! The rules that scripts evaluate through `java.getString`, `java.getStringList`
//! and `java.getElements`.

use crate::ext::dom::{
    all_elements, attr_models, dom_of, inner_html, inner_html_of, ints, is_element, outer_html, outer_html_of,
    parse_document, Attr, AttrV, Document, Kind, KindV,
};
use crate::ext::json::{
    copy_json, json_models, json_of, json_text_of, json_to_text, lemma_array_model, lemma_object_model, member_models,
    member_of, parse_json, put, set_member, texts_json, texts_value, Json, JsonV,
};
use crate::ext::regexes::{find_matches, found_models, opt_texts, regex_matches, FoundV, Matches};
use crate::parser::context::with_pair;
use crate::parser::field::{or_blank, text_or_blank};
use crate::parser::html::{
    all_text_of, first_of, list_of, select_all_text, select_css_list, select_list, select_text, select_text_list,
    selected, text_list, whole_text, whole_text_of,
};
use crate::parser::js::{called, eval_js, page_call};
use crate::parser::jsonpath::{
    first_string_of, jsonpath_first_string, jsonpath_query, query_of, value_text, value_texts, value_to_string,
};
use crate::parser::markup::{html_unescape, unescaped};
use crate::parser::rule_analyzer::{
    lemma_parts_shorter, split_delimiter, split_result, split_top_level, strs, SplitResult,
};
use crate::parser::script::{agrees, group_log, lemma_offline_on, offline, Host, Oracle, ScriptEngine, World};
use crate::parser::source_rule::{apply_legado_regex, regex_applied, script_of, split_legado_regex, strip_js_rule};
use crate::parser::xpath::{
    document_strings, select_xpath, select_xpath_elements_json, xpath_rule, xpath_rule_of, xpath_values,
};
use crate::util::address::{resolve_url, resolved_url};
use crate::util::chars::{
    chars_of, concat, contains, contains_text, copy, find_of, has_prefix, is_empty_text, join, join_of, lemma_trim_len,
    lower_ascii_of, opt_str, opt_text, same, split, split_of, starts_with, string_range, strip_prefix, strip_prefix_of,
    strip_suffix, strip_suffix_of, texts, to_ascii_lowercase, trim, trim_of,
};
use vstd::prelude::*;
use vstd::string::*;

verus! {

/// What a rule is evaluated on, and what its values become.
pub struct GetV {
    pub target: Seq<char>,
    pub base: Seq<char>,
    /// Whether values are addresses, which are resolved against the page's.
    pub is_url: bool,
    pub unescape: bool,
}

/// Whether a rule is a script.
pub open spec fn is_script(rule: Seq<char>) -> bool {
    has_prefix(rule, "<js>"@) || has_prefix(rule, "@js:"@) || has_prefix(rule, "js:"@)
}

pub fn is_script_rule(rule: &str) -> (r: bool)
    ensures
        r == is_script(rule@),
{
    starts_with(rule, "<js>") || starts_with(rule, "@js:") || starts_with(rule, "js:")
}

/// Whether a rule selects in JSON: by its prefix, or since the content is JSON.
pub open spec fn is_json_rule(rule: Seq<char>, target: Seq<char>) -> bool {
    ||| has_prefix(rule, "@json:"@)
    ||| has_prefix(rule, "@Json:"@)
    ||| has_prefix(rule, "@JSON:"@)
    ||| has_prefix(rule, "$."@)
    ||| has_prefix(rule, "$["@)
    ||| has_prefix(target, "{"@)
    ||| has_prefix(target, "["@)
}

pub fn selects_json(rule: &str, target: &str) -> (r: bool)
    ensures
        r == is_json_rule(rule@, target@),
{
    starts_with(rule, "@json:") || starts_with(rule, "@Json:") || starts_with(rule, "@JSON:") || starts_with(rule, "$.")
        || starts_with(rule, "$[") || starts_with(target, "{") || starts_with(target, "[")
}

/// A JSON rule without its prefix.
pub open spec fn json_path(rule: Seq<char>) -> Seq<char> {
    match strip_prefix_of(rule, "@json:"@) {
        Some(s) => trim_of(s),
        None => match strip_prefix_of(rule, "@Json:"@) {
            Some(s) => trim_of(s),
            None => match strip_prefix_of(rule, "@JSON:"@) {
                Some(s) => trim_of(s),
                None => rule,
            },
        },
    }
}

pub fn strip_json_prefix(rule: &str) -> (r: String)
    ensures
        r@ == json_path(rule@),
{
    if let Some(s) = strip_prefix(rule, "@json:") {
        return trim(s.as_str());
    }
    if let Some(s) = strip_prefix(rule, "@Json:") {
        return trim(s.as_str());
    }
    if let Some(s) = strip_prefix(rule, "@JSON:") {
        return trim(s.as_str());
    }
    copy(rule)
}

/// Whether a rule is a regular expression.
pub open spec fn is_pattern_rule(rule: Seq<char>) -> bool {
    has_prefix(rule, "@regex:"@) || has_prefix(rule, ":"@)
}

/// The expression of a rule that is one.
pub open spec fn pattern_of(rule: Seq<char>) -> Seq<char> {
    match strip_prefix_of(rule, "@regex:"@) {
        Some(s) => trim_of(s),
        None => rule.subrange(1, rule.len() as int),
    }
}

fn strip_regex_prefix(rule: &str) -> (r: String)
    requires
        is_pattern_rule(rule@),
    ensures
        r@ == pattern_of(rule@),
{
    proof {
        reveal_strlit(":");
        reveal_strlit("@regex:");
    }
    match strip_prefix(rule, "@regex:") {
        Some(s) => trim(s.as_str()),
        None => {
            let v = chars_of(rule);
            string_range(&v, 1, v.len())
        },
    }
}

/// A CSS rule without its prefix.
pub open spec fn css_rule_of(rule: Seq<char>) -> Seq<char> {
    match strip_prefix_of(rule, "@css:"@) {
        Some(s) => trim_of(s),
        None => match strip_prefix_of(rule, "@CSS:"@) {
            Some(s) => trim_of(s),
            None => rule,
        },
    }
}

pub fn strip_css_prefix(rule: &str) -> (r: String)
    ensures
        r@ == css_rule_of(rule@),
{
    if let Some(s) = strip_prefix(rule, "@css:") {
        return trim(s.as_str());
    }
    if let Some(s) = strip_prefix(rule, "@CSS:") {
        return trim(s.as_str());
    }
    copy(rule)
}

/// What a match gives: its first group, or all of it.
pub open spec fn captured(groups: Seq<Option<Seq<char>>>) -> Option<Seq<char>> {
    if groups.len() > 1 && groups[1] is Some {
        groups[1]
    } else if groups.len() > 0 {
        groups[0]
    } else {
        None
    }
}

pub fn capture(groups: &Vec<Option<String>>) -> (r: Option<String>)
    ensures
        opt_text(r) == captured(opt_texts(groups@)),
{
    if groups.len() > 1 {
        assert(opt_texts(groups@)[1] == opt_text(groups@[1]));
        if let Some(t) = &groups[1] {
            return Some(t.clone());
        }
    }
    if groups.len() > 0 {
        assert(opt_texts(groups@)[0] == opt_text(groups@[0]));
        if let Some(t) = &groups[0] {
            return Some(t.clone());
        }
    }
    None
}

/// What the first `n` matches give.
pub open spec fn captures(found: Seq<FoundV>, n: int) -> Seq<Seq<char>>
    decreases n,
{
    if n <= 0 {
        seq![]
    } else {
        match captured(found[n - 1].groups) {
            Some(t) => captures(found, n - 1).push(t),
            None => captures(found, n - 1),
        }
    }
}

/// What the matches of an expression in a text give.
pub open spec fn pattern_values(pattern: Seq<char>, text: Seq<char>) -> Seq<Seq<char>> {
    match regex_matches(pattern, text) {
        Some(m) => captures(m.found, m.found.len() as int),
        None => seq![],
    }
}

pub fn collect_captures(pattern: &str, text: &str) -> (r: Vec<String>)
    ensures
        texts(r@) == pattern_values(pattern@, text@),
{
    match find_matches(pattern, text) {
        Some(m) => captures_of(&m),
        None => {
            let r: Vec<String> = Vec::new();
            assert(texts(r@) =~= seq![]);
            r
        },
    }
}

/// What the matches that were found give.
pub fn captures_of(m: &Matches) -> (r: Vec<String>)
    ensures
        texts(r@) == captures(m.model().found, m.found.len() as int),
{
    let mut r: Vec<String> = Vec::new();
    assert(texts(r@) =~= seq![]);
    let ghost all = found_models(m.found@);
    let mut k: usize = 0;
    while k < m.found.len()
        invariant
            k <= m.found.len(),
            all == found_models(m.found@),
            texts(r@) == captures(all, k as int),
        decreases m.found.len() - k,
    {
        assert(all[k as int] == m.found@[k as int].model());
        if let Some(t) = capture(&m.found[k].groups) {
            let ghost before = texts(r@);
            let ghost x = t@;
            r.push(t);
            assert(texts(r@) =~= before.push(x));
        }
        k = k + 1;
    }
    r
}

/// What the first match of an expression gives.
pub open spec fn pattern_value(pattern: Seq<char>, text: Seq<char>) -> Seq<char> {
    match regex_matches(pattern, text) {
        Some(m) => if m.found.len() > 0 {
            or_blank(captured(m.found[0].groups))
        } else {
            seq![]
        },
        None => seq![],
    }
}

fn blank() -> (r: String)
    ensures
        r@ == Seq::<char>::empty(),
{
    let r = String::new();
    assert(r@ =~= Seq::<char>::empty());
    r
}

pub fn first_capture(pattern: &str, text: &str) -> (r: String)
    ensures
        r@ == pattern_value(pattern@, text@),
{
    match find_matches(pattern, text) {
        Some(m) => {
            let ghost all = found_models(m.found@);
            assert(all.len() == m.found.len());
            if m.found.len() > 0 {
                assert(all[0] == m.found@[0].model());
                text_or_blank(capture(&m.found[0].groups))
            } else {
                blank()
            }
        },
        None => blank(),
    }
}

/// The value of a JSON rule in a text.
pub open spec fn json_value_of(path: Seq<char>, target: Seq<char>) -> Seq<char> {
    match json_of(target) {
        Some(v) => if path.len() == 0 {
            or_blank(value_text(v))
        } else if has_prefix(path, "$"@) {
            or_blank(first_string_of(v, path))
        } else {
            match member_of(v, path) {
                Some(x) => or_blank(value_text(x)),
                None => or_blank(first_string_of(v, "$."@ + path)),
            }
        },
        None => seq![],
    }
}

pub fn select_json_value(path: &str, target: &str) -> (r: String)
    ensures
        r@ == json_value_of(path@, target@),
{
    match parse_json(target) {
        Some(v) => {
            if is_empty_text(path) {
                text_or_blank(value_to_string(&v))
            } else if starts_with(path, "$") {
                text_or_blank(jsonpath_first_string(&v, path))
            } else {
                match v.get(path) {
                    Some(x) => text_or_blank(value_to_string(x)),
                    None => text_or_blank(jsonpath_first_string(&v, concat("$.", path).as_str())),
                }
            }
        },
        None => blank(),
    }
}

pub fn texts_of_values(v: &Vec<Json>) -> (r: Vec<String>)
    ensures
        texts(r@) == value_texts(json_models(v@), v.len() as int),
{
    let ghost all = json_models(v@);
    let mut r: Vec<String> = Vec::new();
    let mut k: usize = 0;
    assert(texts(r@) =~= value_texts(all, 0));
    while k < v.len()
        invariant
            k <= v.len(),
            all == json_models(v@),
            texts(r@) == value_texts(all, k as int),
        decreases v.len() - k,
    {
        assert(all[k as int] == v@[k as int].model());
        if let Some(t) = value_to_string(&v[k]) {
            let ghost before = texts(r@);
            let ghost x = t@;
            r.push(t);
            assert(texts(r@) =~= before.push(x));
        }
        k = k + 1;
    }
    r
}

/// The values of a JSON rule in a text.
pub open spec fn json_values_of(path: Seq<char>, target: Seq<char>) -> Seq<Seq<char>> {
    match json_of(target) {
        Some(v) => value_texts(json_members_of(v, path), json_members_of(v, path).len() as int),
        None => seq![],
    }
}

/// The members that a JSON rule without a path selects.
pub open spec fn json_members_of(v: JsonV, path: Seq<char>) -> Seq<JsonV> {
    if has_prefix(path, "$"@) {
        query_of(v, path)
    } else {
        match member_of(v, path) {
            Some(JsonV::Array(items)) => items,
            Some(x) => seq![x],
            None => query_of(v, "$."@ + path),
        }
    }
}

pub fn copy_values(v: &Vec<Json>) -> (r: Vec<Json>)
    ensures
        json_models(r@) == json_models(v@),
{
    let ghost all = json_models(v@);
    let mut r: Vec<Json> = Vec::new();
    let mut k: usize = 0;
    while k < v.len()
        invariant
            k <= v.len(),
            all == json_models(v@),
            json_models(r@) =~= all.take(k as int),
        decreases v.len() - k,
    {
        let ghost before = json_models(r@);
        let x = copy_json(&v[k]);
        let ghost m = x.model();
        r.push(x);
        assert(all[k as int] == m);
        assert(json_models(r@) =~= before.push(m));
        k = k + 1;
    }
    assert(all.take(k as int) =~= all);
    r
}

pub fn select_json_members(v: &Json, path: &str) -> (r: Vec<Json>)
    ensures
        json_models(r@) == json_members_of(v.model(), path@),
{
    broadcast use lemma_array_model;

    if starts_with(path, "$") {
        return jsonpath_query(v, path);
    }
    match v.get(path) {
        Some(Json::Array(items)) => copy_values(items),
        Some(x) => {
            let c = copy_json(x);
            let ghost m = c.model();
            let mut r: Vec<Json> = Vec::new();
            r.push(c);
            assert(json_models(r@) =~= seq![m]);
            r
        },
        None => jsonpath_query(v, concat("$.", path).as_str()),
    }
}

pub fn select_json_values(path: &str, target: &str) -> (r: Vec<String>)
    ensures
        texts(r@) == json_values_of(path@, target@),
{
    match parse_json(target) {
        Some(v) => {
            let found = select_json_members(&v, path);
            assert(json_models(found@).len() == found.len());
            texts_of_values(&found)
        },
        None => {
            let r: Vec<String> = Vec::new();
            assert(texts(r@) =~= seq![]);
            r
        },
    }
}

/// The value of a CSS rule in a document: the text of all elements, else the first value.
pub open spec fn css_value(rule: Seq<char>, target: Seq<char>) -> Seq<char> {
    match all_text_of(target, rule) {
        Some(t) => t,
        None => or_blank(first_of(text_list(target, rule))),
    }
}

pub fn select_css_value(rule: &str, target: &str) -> (r: String)
    ensures
        r@ == css_value(rule@, target@),
{
    let doc = parse_document(target);
    match select_all_text(&doc, rule) {
        Some(t) => t,
        None => text_or_blank(select_text(&doc, rule)),
    }
}

/// The value of one rule without its replacement.
pub open spec fn main_value(rule: Seq<char>, target: Seq<char>, base: Seq<char>, w: World, o: Oracle) -> (Seq<char>, World) {
    if rule.len() == 0 {
        (target, w)
    } else if is_script(rule) {
        let x = called(page_call(script_of(rule), target, base, None, false), w, o);
        (
            match x.0 {
                Ok(t) => t,
                Err(_) => seq![],
            },
            x.1,
        )
    } else if xpath_rule_of(rule) is Some {
        let x = document_strings(target, xpath_rule_of(rule)->0, false, w, o);
        (or_blank(first_of(x.0)), x.1)
    } else if is_json_rule(rule, target) {
        (json_value_of(json_path(rule), target), w)
    } else if is_pattern_rule(rule) {
        (pattern_value(pattern_of(rule), target), w)
    } else {
        (css_value(css_rule_of(rule), target), w)
    }
}

pub fn eval_main<E: ScriptEngine>(rule: &str, target: &str, base: &str, host: &mut Host<E>) -> (r: String)
    ensures
        offline(old(host).log(), final(host).log()),
        forall|o: Oracle| #[trigger]
            agrees(final(host).log(), o) ==> main_value(rule@, target@, base@, old(host).world(), o) == (
                r@,
                final(host).world(),
            ),
{
    broadcast use group_log;

    if is_empty_text(rule) {
        return copy(target);
    }
    if is_script_rule(rule) {
        let script = strip_js_rule(rule);
        return match eval_js(script.as_str(), target, base, host) {
            Ok(t) => t,
            Err(_) => blank(),
        };
    }
    if let Some(pure) = xpath_rule(rule) {
        return text_or_blank(crate::parser::html::first_string(select_xpath(target, pure.as_str(), host)));
    }
    if selects_json(rule, target) {
        return select_json_value(strip_json_prefix(rule).as_str(), target);
    }
    if starts_with(rule, "@regex:") || starts_with(rule, ":") {
        return first_capture(strip_regex_prefix(rule).as_str(), target);
    }
    select_css_value(strip_css_prefix(rule).as_str(), target)
}

/// A rule without its replacement, and the replacement.
pub open spec fn rule_parts(rule: Seq<char>) -> (Seq<char>, Option<Seq<char>>) {
    match find_of(rule, "##"@) {
        Some(k) => (trim_of(trim_of(rule.subrange(0, k))), Some(rule.subrange(k, rule.len() as int))),
        None => (trim_of(rule), None),
    }
}

/// A value after its replacement, with its entities replaced and resolved where
/// that is asked for.
pub open spec fn finished(value: Seq<char>, regex: Option<Seq<char>>, g: GetV) -> Seq<char> {
    let a = match regex {
        Some(x) => regex_applied(value, x),
        None => value,
    };
    let b = if g.unescape && contains_text(a, "&"@) {
        unescaped(a)
    } else {
        a
    };
    if g.is_url && b.len() > 0 {
        resolved_url(g.base, b)
    } else {
        b
    }
}

/// The value of one rule.
pub open spec fn single_value(rule: Seq<char>, g: GetV, w: World, o: Oracle) -> (Seq<char>, World) {
    let x = main_value(rule_parts(rule).0, g.target, g.base, w, o);
    (finished(x.0, rule_parts(rule).1, g), x.1)
}

/// What a script asks of a rule.
pub struct Get<'a> {
    pub target: &'a str,
    pub base: &'a str,
    pub is_url: bool,
    pub unescape: bool,
}

impl<'a> Get<'a> {
    pub open spec fn model(self) -> GetV {
        GetV { target: self.target@, base: self.base@, is_url: self.is_url, unescape: self.unescape }
    }
}

pub fn split_rule(rule: &str) -> (r: (String, Option<String>))
    ensures
        (r.0@, opt_text(r.1)) == rule_parts(rule@),
{
    let (main, regex) = split_legado_regex(rule);
    (trim(main.as_str()), regex)
}

pub fn eval_single<E: ScriptEngine>(rule: &str, g: &Get<'_>, host: &mut Host<E>) -> (r: String)
    ensures
        offline(old(host).log(), final(host).log()),
        forall|o: Oracle| #[trigger]
            agrees(final(host).log(), o) ==> single_value(rule@, g.model(), old(host).world(), o) == (
                r@,
                final(host).world(),
            ),
{
    broadcast use group_log;

    let (main, regex) = split_rule(rule);
    let mut value = eval_main(main.as_str(), g.target, g.base, host);
    if let Some(x) = regex {
        value = apply_legado_regex(value.as_str(), x.as_str());
    }
    if g.unescape && contains(value.as_str(), "&") {
        value = html_unescape(value.as_str());
    }
    if g.is_url && !is_empty_text(value.as_str()) {
        value = resolve_url(g.base, value.as_str());
    }
    value
}

/// The marks that join rules of one value.
pub open spec fn value_marks() -> Seq<Seq<char>> {
    seq!["||"@, "&&"@]
}

pub fn split_value_rule(rule: &str) -> (r: SplitResult)
    ensures
        texts(r.parts@) == split_result(rule@, value_marks()),
        opt_text(r.delimiter) == split_delimiter(rule@, value_marks()),
        r.delimiter is Some ==> forall|i: int| 0 <= i < r.parts.len() ==> (#[trigger] r.parts@[i])@.len() < rule@.len(),
{
    proof {
        reveal_strlit("&&");
        reveal_strlit("||");
    }
    let marks = ["||", "&&"];
    assert(strs(marks@) =~= value_marks());
    let r = split_top_level(rule, &marks);
    proof {
        if r.delimiter is Some {
            lemma_parts_shorter(rule@, value_marks());
            assert forall|i: int| 0 <= i < r.parts.len() implies (#[trigger] r.parts@[i])@.len() < rule@.len() by {
                assert(texts(r.parts@)[i] == r.parts@[i]@);
            }
        }
    }
    r
}

/// The value of a rule: of rules joined by `||` the first value, of rules joined
/// by `&&` all values, one per line.
pub open spec fn got_value(rule: Seq<char>, g: GetV, w: World, o: Oracle) -> (Seq<char>, World)
    decreases rule.len(), 1int, 0int,
    via got_value_decreases
{
    let r = trim_of(rule);
    if r.len() == 0 || g.target.len() == 0 {
        (seq![], w)
    } else {
        let parts = split_result(r, value_marks());
        match split_delimiter(r, value_marks()) {
            None => single_value(r, g, w, o),
            Some(d) => if d == "||"@ {
                first_value(parts, 0, g, r.len(), w, o)
            } else {
                let x = all_values(parts, parts.len() as int, g, r.len(), w, o);
                (join_of(x.0, "\n"@), x.1)
            },
        }
    }
}

#[via_fn]
proof fn got_value_decreases(rule: Seq<char>, g: GetV, w: World, o: Oracle) {
    lemma_trim_len(rule);
}

/// The first value of rules, from position `k` on.
pub open spec fn first_value(parts: Seq<Seq<char>>, k: int, g: GetV, bound: nat, w: World, o: Oracle) -> (Seq<char>, World)
    decreases bound, 0int, parts.len() - k,
{
    if k < 0 || k >= parts.len() || parts[k].len() >= bound {
        (seq![], w)
    } else {
        let x = got_value(parts[k], g, w, o);
        if x.0.len() > 0 {
            x
        } else {
            first_value(parts, k + 1, g, bound, x.1, o)
        }
    }
}

/// The values of the first `n` rules that have one.
pub open spec fn all_values(parts: Seq<Seq<char>>, n: int, g: GetV, bound: nat, w: World, o: Oracle) -> (
    Seq<Seq<char>>,
    World,
)
    decreases bound, 0int, n,
{
    if n <= 0 || n > parts.len() || parts[n - 1].len() >= bound {
        (seq![], w)
    } else {
        let before = all_values(parts, n - 1, g, bound, w, o);
        let x = got_value(parts[n - 1], g, before.1, o);
        (
            if x.0.len() > 0 {
                before.0.push(x.0)
            } else {
                before.0
            },
            x.1,
        )
    }
}

/// Evaluates a rule on a content that is trimmed already.
pub fn eval_value<E: ScriptEngine>(rule: &str, g: &Get<'_>, host: &mut Host<E>) -> (r: String)
    ensures
        offline(old(host).log(), final(host).log()),
        forall|o: Oracle| #[trigger]
            agrees(final(host).log(), o) ==> got_value(rule@, g.model(), old(host).world(), o) == (
                r@,
                final(host).world(),
            ),
    decreases rule@.len(),
{
    broadcast use group_log;

    proof {
        lemma_trim_len(rule@);
    }
    let ghost w0 = host.world();
    let trimmed = trim(rule);
    if is_empty_text(trimmed.as_str()) || is_empty_text(g.target) {
        return blank();
    }
    let split = split_value_rule(trimmed.as_str());
    let ghost parts = split_result(trimmed@, value_marks());
    let ghost bound = trimmed@.len();
    match split.delimiter {
        None => eval_single(trimmed.as_str(), g, host),
        Some(d) => {
            if same(d.as_str(), "||") {
                let mut k: usize = 0;
                while k < split.parts.len()
                    invariant
                        k <= split.parts.len(),
                        parts == texts(split.parts@),
                        bound == trimmed@.len(),
                        bound <= rule@.len(),
                        w0 == old(host).world(),
                        forall|i: int| 0 <= i < split.parts.len() ==> (#[trigger] split.parts@[i])@.len() < bound,
                        offline(old(host).log(), host.log()),
                        forall|o: Oracle| #[trigger]
                            agrees(host.log(), o) ==> got_value(rule@, g.model(), w0, o) == first_value(
                                parts,
                                k as int,
                                g.model(),
                                bound,
                                host.world(),
                                o,
                            ),
                    decreases split.parts.len() - k,
                {
                    let ghost log0 = host.log();
                    assert(parts[k as int] == split.parts@[k as int]@);
                    let x = eval_value(split.parts[k].as_str(), g, host);
                    proof {
                        lemma_offline_on(old(host).log(), log0, host.log());
                        assert forall|o: Oracle| #[trigger] agrees(host.log(), o) implies agrees(log0, o) by {}
                    }
                    if !is_empty_text(x.as_str()) {
                        return x;
                    }
                    k = k + 1;
                }
                return blank();
            }
            let mut found: Vec<String> = Vec::new();
            assert(texts(found@) =~= seq![]);
            let mut k: usize = 0;
            while k < split.parts.len()
                invariant
                    k <= split.parts.len(),
                    parts == texts(split.parts@),
                    bound == trimmed@.len(),
                    bound <= rule@.len(),
                    w0 == old(host).world(),
                    forall|i: int| 0 <= i < split.parts.len() ==> (#[trigger] split.parts@[i])@.len() < bound,
                    offline(old(host).log(), host.log()),
                    forall|o: Oracle| #[trigger]
                        agrees(host.log(), o) ==> all_values(parts, k as int, g.model(), bound, w0, o) == (
                            texts(found@),
                            host.world(),
                        ),
                decreases split.parts.len() - k,
            {
                let ghost log0 = host.log();
                let ghost before = texts(found@);
                assert(parts[k as int] == split.parts@[k as int]@);
                let x = eval_value(split.parts[k].as_str(), g, host);
                proof {
                    lemma_offline_on(old(host).log(), log0, host.log());
                    assert forall|o: Oracle| #[trigger] agrees(host.log(), o) implies agrees(log0, o) by {}
                }
                if !is_empty_text(x.as_str()) {
                    let ghost t = x@;
                    found.push(x);
                    assert(texts(found@) =~= before.push(t));
                }
                k = k + 1;
            }
            join(&found, "\n")
        },
    }
}

/// The content that a rule is evaluated on.
pub open spec fn content_of(content: Option<Seq<char>>, default_content: Seq<char>) -> Seq<char> {
    match content {
        Some(t) => trim_of(t),
        None => trim_of(default_content),
    }
}

/// Evaluates a rule to one value, as `java.getString` does.
pub fn java_get_string<E: ScriptEngine>(
    rule: Option<&str>,
    content: Option<&str>,
    default_content: &str,
    base_url: &str,
    is_url: bool,
    unescape: bool,
    host: &mut Host<E>,
) -> (r: String)
    ensures
        offline(old(host).log(), final(host).log()),
        forall|o: Oracle| #[trigger]
            agrees(final(host).log(), o) ==> got_value(
                or_blank(opt_str(rule)),
                GetV {
                    target: content_of(opt_str(content), default_content@),
                    base: base_url@,
                    is_url,
                    unescape,
                },
                old(host).world(),
                o,
            ) == (r@, final(host).world()),
{
    broadcast use group_log;

    proof {
        lemma_trim_len(seq![]);
    }
    let target = match content {
        Some(t) => trim(t),
        None => trim(default_content),
    };
    match rule {
        Some(t) => {
            let g = Get { target: target.as_str(), base: base_url, is_url, unescape };
            eval_value(t, &g, host)
        },
        None => blank(),
    }
}

/// A line without the carriage return at its end.
pub open spec fn without_return(s: Seq<char>) -> Seq<char> {
    match strip_suffix_of(s, "\r"@) {
        Some(t) => t,
        None => s,
    }
}

/// The first `n` lines that are not empty; only what comes after the last line
/// break keeps a carriage return at its end.
pub open spec fn filled_lines(parts: Seq<Seq<char>>, n: int) -> Seq<Seq<char>>
    decreases n,
{
    if n <= 0 {
        seq![]
    } else {
        let line = if n < parts.len() {
            without_return(parts[n - 1])
        } else {
            parts[n - 1]
        };
        if line.len() > 0 {
            filled_lines(parts, n - 1).push(line)
        } else {
            filled_lines(parts, n - 1)
        }
    }
}

/// The lines of a text that are not empty.
pub open spec fn lines_of(text: Seq<char>) -> Seq<Seq<char>> {
    let parts = split_of(text, "\n"@);
    filled_lines(parts, parts.len() as int)
}

pub fn split_lines(text: &str) -> (r: Vec<String>)
    ensures
        texts(r@) == lines_of(text@),
{
    proof {
        reveal_strlit("\n");
    }
    let parts = split(text, "\n");
    let ghost all = split_of(text@, "\n"@);
    let end: usize = parts.len();
    let mut r: Vec<String> = Vec::new();
    let mut k: usize = 0;
    assert(texts(r@) =~= seq![]);
    while k < end
        invariant
            k <= end,
            end == parts.len(),
            end == all.len(),
            all == texts(parts@),
            texts(r@) == filled_lines(all, k as int),
        decreases end - k,
    {
        assert(all[k as int] == parts@[k as int]@);
        let line = if k + 1 < end {
            match strip_suffix(parts[k].as_str(), "\r") {
                Some(t) => t,
                None => parts[k].clone(),
            }
        } else {
            parts[k].clone()
        };
        if !is_empty_text(line.as_str()) {
            let ghost before = texts(r@);
            let ghost x = line@;
            r.push(line);
            assert(texts(r@) =~= before.push(x));
        }
        k = k + 1;
    }
    r
}

/// The values of one rule without its replacement.
pub open spec fn main_values(rule: Seq<char>, target: Seq<char>, base: Seq<char>, w: World, o: Oracle) -> (
    Seq<Seq<char>>,
    World,
) {
    if rule.len() == 0 {
        (seq![target], w)
    } else if is_script(rule) {
        let x = called(page_call(script_of(rule), target, base, None, false), w, o);
        (
            match x.0 {
                Ok(t) => lines_of(t),
                Err(_) => seq![],
            },
            x.1,
        )
    } else if xpath_rule_of(rule) is Some {
        document_strings(target, xpath_rule_of(rule)->0, false, w, o)
    } else if is_json_rule(rule, target) {
        (json_values_of(json_path(rule), target), w)
    } else if is_pattern_rule(rule) {
        (pattern_values(pattern_of(rule), target), w)
    } else {
        (text_list(target, css_rule_of(rule)), w)
    }
}

pub fn eval_main_list<E: ScriptEngine>(rule: &str, target: &str, base: &str, host: &mut Host<E>) -> (r: Vec<String>)
    ensures
        offline(old(host).log(), final(host).log()),
        forall|o: Oracle| #[trigger]
            agrees(final(host).log(), o) ==> main_values(rule@, target@, base@, old(host).world(), o) == (
                texts(r@),
                final(host).world(),
            ),
{
    broadcast use group_log;

    if is_empty_text(rule) {
        let mut r: Vec<String> = Vec::new();
        r.push(copy(target));
        assert(texts(r@) =~= seq![target@]);
        return r;
    }
    if is_script_rule(rule) {
        let script = strip_js_rule(rule);
        return match eval_js(script.as_str(), target, base, host) {
            Ok(t) => split_lines(t.as_str()),
            Err(_) => {
                let r: Vec<String> = Vec::new();
                assert(texts(r@) =~= seq![]);
                r
            },
        };
    }
    if let Some(pure) = xpath_rule(rule) {
        return select_xpath(target, pure.as_str(), host);
    }
    if selects_json(rule, target) {
        return select_json_values(strip_json_prefix(rule).as_str(), target);
    }
    if starts_with(rule, "@regex:") || starts_with(rule, ":") {
        return collect_captures(strip_regex_prefix(rule).as_str(), target);
    }
    let doc = parse_document(target);
    select_text_list(&doc, strip_css_prefix(rule).as_str())
}

/// The first `n` values after their replacement; addresses are resolved, and
/// empty ones left out.
pub open spec fn finished_list(list: Seq<Seq<char>>, regex: Option<Seq<char>>, base: Seq<char>, is_url: bool, n: int) -> Seq<
    Seq<char>,
>
    decreases n,
{
    if n <= 0 {
        seq![]
    } else {
        let before = finished_list(list, regex, base, is_url, n - 1);
        let x = match regex {
            Some(p) => regex_applied(list[n - 1], p),
            None => list[n - 1],
        };
        if !is_url {
            before.push(x)
        } else if x.len() > 0 {
            before.push(resolved_url(base, x))
        } else {
            before
        }
    }
}

/// The values of one rule.
pub open spec fn single_values(rule: Seq<char>, g: GetV, w: World, o: Oracle) -> (Seq<Seq<char>>, World) {
    let x = main_values(rule_parts(rule).0, g.target, g.base, w, o);
    (finished_list(x.0, rule_parts(rule).1, g.base, g.is_url, x.0.len() as int), x.1)
}

pub fn finish_list(list: &Vec<String>, regex: Option<String>, base: &str, is_url: bool) -> (r: Vec<String>)
    ensures
        texts(r@) == finished_list(texts(list@), opt_text(regex), base@, is_url, list.len() as int),
{
    let ghost all = texts(list@);
    let ghost p = opt_text(regex);
    let mut r: Vec<String> = Vec::new();
    let mut k: usize = 0;
    assert(texts(r@) =~= seq![]);
    while k < list.len()
        invariant
            k <= list.len(),
            all == texts(list@),
            p == opt_text(regex),
            texts(r@) == finished_list(all, p, base@, is_url, k as int),
        decreases list.len() - k,
    {
        assert(all[k as int] == list@[k as int]@);
        let x = match &regex {
            Some(e) => apply_legado_regex(list[k].as_str(), e.as_str()),
            None => list[k].clone(),
        };
        let ghost before = texts(r@);
        if !is_url {
            let ghost t = x@;
            r.push(x);
            assert(texts(r@) =~= before.push(t));
        } else if !is_empty_text(x.as_str()) {
            let y = resolve_url(base, x.as_str());
            let ghost t = y@;
            r.push(y);
            assert(texts(r@) =~= before.push(t));
        }
        k = k + 1;
    }
    r
}

pub fn eval_single_list<E: ScriptEngine>(rule: &str, g: &Get<'_>, host: &mut Host<E>) -> (r: Vec<String>)
    ensures
        offline(old(host).log(), final(host).log()),
        forall|o: Oracle| #[trigger]
            agrees(final(host).log(), o) ==> single_values(rule@, g.model(), old(host).world(), o) == (
                texts(r@),
                final(host).world(),
            ),
{
    broadcast use group_log;

    let (main, regex) = split_rule(rule);
    let list = eval_main_list(main.as_str(), g.target, g.base, host);
    assert(texts(list@).len() == list.len());
    finish_list(&list, regex, g.base, g.is_url)
}

/// The marks that join rules of a list.
pub open spec fn list_marks() -> Seq<Seq<char>> {
    seq!["||"@, "&&"@, "%%"@]
}

pub fn split_list_rule(rule: &str) -> (r: SplitResult)
    ensures
        texts(r.parts@) == split_result(rule@, list_marks()),
        opt_text(r.delimiter) == split_delimiter(rule@, list_marks()),
        r.delimiter is Some ==> forall|i: int| 0 <= i < r.parts.len() ==> (#[trigger] r.parts@[i])@.len() < rule@.len(),
{
    proof {
        reveal_strlit("&&");
        reveal_strlit("||");
        reveal_strlit("%%");
    }
    let marks = ["||", "&&", "%%"];
    assert(strs(marks@) =~= list_marks());
    let r = split_top_level(rule, &marks);
    proof {
        if r.delimiter is Some {
            lemma_parts_shorter(rule@, list_marks());
            assert forall|i: int| 0 <= i < r.parts.len() implies (#[trigger] r.parts@[i])@.len() < rule@.len() by {
                assert(texts(r.parts@)[i] == r.parts@[i]@);
            }
        }
    }
    r
}

/// The values of a rule: of rules joined by `||` those of the first that has
/// any, of rules joined by `&&` or `%%` those of all, one rule after the other.
pub open spec fn got_list(rule: Seq<char>, g: GetV, w: World, o: Oracle) -> (Seq<Seq<char>>, World)
    decreases rule.len(), 1int, 0int,
    via got_list_decreases
{
    let r = trim_of(rule);
    if r.len() == 0 || g.target.len() == 0 {
        (seq![], w)
    } else {
        let parts = split_result(r, list_marks());
        match split_delimiter(r, list_marks()) {
            None => single_values(r, g, w, o),
            Some(d) => if d == "||"@ {
                first_list(parts, 0, g, r.len(), w, o)
            } else {
                all_lists(parts, parts.len() as int, g, r.len(), w, o)
            },
        }
    }
}

#[via_fn]
proof fn got_list_decreases(rule: Seq<char>, g: GetV, w: World, o: Oracle) {
    lemma_trim_len(rule);
}

/// The values of the first rule that has any, from position `k` on.
pub open spec fn first_list(parts: Seq<Seq<char>>, k: int, g: GetV, bound: nat, w: World, o: Oracle) -> (
    Seq<Seq<char>>,
    World,
)
    decreases bound, 0int, parts.len() - k,
{
    if k < 0 || k >= parts.len() || parts[k].len() >= bound {
        (seq![], w)
    } else {
        let x = got_list(parts[k], g, w, o);
        if x.0.len() > 0 {
            x
        } else {
            first_list(parts, k + 1, g, bound, x.1, o)
        }
    }
}

/// The values of the first `n` rules, one rule after the other.
pub open spec fn all_lists(parts: Seq<Seq<char>>, n: int, g: GetV, bound: nat, w: World, o: Oracle) -> (
    Seq<Seq<char>>,
    World,
)
    decreases bound, 0int, n,
{
    if n <= 0 || n > parts.len() || parts[n - 1].len() >= bound {
        (seq![], w)
    } else {
        let before = all_lists(parts, n - 1, g, bound, w, o);
        let x = got_list(parts[n - 1], g, before.1, o);
        (before.0 + x.0, x.1)
    }
}

pub fn append_all(into: &mut Vec<String>, from: Vec<String>)
    ensures
        texts(final(into)@) == texts(old(into)@) + texts(from@),
{
    let ghost before = texts(into@);
    let ghost all = texts(from@);
    let mut k: usize = 0;
    assert(texts(into@) =~= before + all.take(0));
    while k < from.len()
        invariant
            k <= from.len(),
            all == texts(from@),
            texts(into@) == before + all.take(k as int),
        decreases from.len() - k,
    {
        let ghost now = texts(into@);
        assert(all[k as int] == from@[k as int]@);
        into.push(from[k].clone());
        assert(texts(into@) =~= now.push(all[k as int]));
        assert(texts(into@) =~= before + all.take(k + 1));
        k = k + 1;
    }
    assert(all.take(k as int) =~= all);
}

pub fn eval_list<E: ScriptEngine>(rule: &str, g: &Get<'_>, host: &mut Host<E>) -> (r: Vec<String>)
    ensures
        offline(old(host).log(), final(host).log()),
        forall|o: Oracle| #[trigger]
            agrees(final(host).log(), o) ==> got_list(rule@, g.model(), old(host).world(), o) == (
                texts(r@),
                final(host).world(),
            ),
    decreases rule@.len(),
{
    broadcast use group_log;

    proof {
        lemma_trim_len(rule@);
    }
    let ghost w0 = host.world();
    let none: Vec<String> = Vec::new();
    assert(texts(none@) =~= seq![]);
    let trimmed = trim(rule);
    if is_empty_text(trimmed.as_str()) || is_empty_text(g.target) {
        return none;
    }
    let split = split_list_rule(trimmed.as_str());
    let ghost parts = split_result(trimmed@, list_marks());
    let ghost bound = trimmed@.len();
    match split.delimiter {
        None => eval_single_list(trimmed.as_str(), g, host),
        Some(d) => {
            if same(d.as_str(), "||") {
                let mut k: usize = 0;
                while k < split.parts.len()
                    invariant
                        k <= split.parts.len(),
                        parts == texts(split.parts@),
                        bound == trimmed@.len(),
                        bound <= rule@.len(),
                        w0 == old(host).world(),
                        texts(none@) == Seq::<Seq<char>>::empty(),
                        forall|i: int| 0 <= i < split.parts.len() ==> (#[trigger] split.parts@[i])@.len() < bound,
                        offline(old(host).log(), host.log()),
                        forall|o: Oracle| #[trigger]
                            agrees(host.log(), o) ==> got_list(rule@, g.model(), w0, o) == first_list(
                                parts,
                                k as int,
                                g.model(),
                                bound,
                                host.world(),
                                o,
                            ),
                    decreases split.parts.len() - k,
                {
                    let ghost log0 = host.log();
                    assert(parts[k as int] == split.parts@[k as int]@);
                    let x = eval_list(split.parts[k].as_str(), g, host);
                    proof {
                        lemma_offline_on(old(host).log(), log0, host.log());
                        assert forall|o: Oracle| #[trigger] agrees(host.log(), o) implies agrees(log0, o) by {}
                    }
                    assert(texts(x@).len() == x.len());
                    if x.len() > 0 {
                        return x;
                    }
                    k = k + 1;
                }
                return none;
            }
            let mut found: Vec<String> = Vec::new();
            assert(texts(found@) =~= seq![]);
            let mut k: usize = 0;
            while k < split.parts.len()
                invariant
                    k <= split.parts.len(),
                    parts == texts(split.parts@),
                    bound == trimmed@.len(),
                    bound <= rule@.len(),
                    w0 == old(host).world(),
                    forall|i: int| 0 <= i < split.parts.len() ==> (#[trigger] split.parts@[i])@.len() < bound,
                    offline(old(host).log(), host.log()),
                    forall|o: Oracle| #[trigger]
                        agrees(host.log(), o) ==> all_lists(parts, k as int, g.model(), bound, w0, o) == (
                            texts(found@),
                            host.world(),
                        ),
                decreases split.parts.len() - k,
            {
                let ghost log0 = host.log();
                assert(parts[k as int] == split.parts@[k as int]@);
                let x = eval_list(split.parts[k].as_str(), g, host);
                proof {
                    lemma_offline_on(old(host).log(), log0, host.log());
                    assert forall|o: Oracle| #[trigger] agrees(host.log(), o) implies agrees(log0, o) by {}
                }
                append_all(&mut found, x);
                k = k + 1;
            }
            found
        },
    }
}

/// Evaluates a rule to all its values, as `java.getStringList` does.
pub fn java_get_string_list<E: ScriptEngine>(
    rule: Option<&str>,
    content: Option<&str>,
    default_content: &str,
    base_url: &str,
    is_url: bool,
    host: &mut Host<E>,
) -> (r: Vec<String>)
    ensures
        offline(old(host).log(), final(host).log()),
        forall|o: Oracle| #[trigger]
            agrees(final(host).log(), o) ==> got_list(
                or_blank(opt_str(rule)),
                GetV {
                    target: content_of(opt_str(content), default_content@),
                    base: base_url@,
                    is_url,
                    unescape: false,
                },
                old(host).world(),
                o,
            ) == (texts(r@), final(host).world()),
{
    broadcast use group_log;

    proof {
        lemma_trim_len(seq![]);
    }
    let target = match content {
        Some(t) => trim(t),
        None => trim(default_content),
    };
    match rule {
        Some(t) => {
            let g = Get { target: target.as_str(), base: base_url, is_url, unescape: false };
            eval_list(t, &g, host)
        },
        None => {
            let r: Vec<String> = Vec::new();
            assert(texts(r@) =~= seq![]);
            r
        },
    }
}

/// Whether a rule of elements is marked as CSS.
pub open spec fn is_marked_css(rule: Seq<char>) -> bool {
    has_prefix(rule, "@@"@) || has_prefix(lower_ascii_of(rule), "@css:"@)
}

/// Whether a rule of elements is marked as neither CSS nor JSON.
pub open spec fn is_marked_other(rule: Seq<char>) -> bool {
    ||| xpath_rule_of(rule) is Some
    ||| has_prefix(lower_ascii_of(rule), "@regex:"@)
    ||| has_prefix(lower_ascii_of(rule), "@js:"@)
    ||| has_prefix(lower_ascii_of(rule), "js:"@)
    ||| has_prefix(rule, ":"@)
}

/// Whether a rule of elements is a path.
pub open spec fn is_marked_json(rule: Seq<char>) -> bool {
    has_prefix(rule, "$"@) || has_prefix(lower_ascii_of(rule), "@json:"@)
}

/// A path without its prefix, in whatever case.
pub open spec fn element_path(rule: Seq<char>) -> Seq<char> {
    if has_prefix(lower_ascii_of(rule), "@json:"@) {
        trim_of(rule.subrange(6, rule.len() as int))
    } else {
        trim_of(rule)
    }
}

/// A selector without its mark.
pub open spec fn element_selector(rule: Seq<char>, raw_css: bool) -> Seq<char> {
    if raw_css {
        trim_of(rule)
    } else if has_prefix(rule, "@@"@) {
        trim_of(rule.subrange(2, rule.len() as int))
    } else if has_prefix(lower_ascii_of(rule), "@css:"@) {
        trim_of(rule.subrange(5, rule.len() as int))
    } else {
        trim_of(rule)
    }
}

/// The first `n` attributes of an element, by name.
pub open spec fn element_attrs(attrs: Seq<AttrV>, n: int) -> Seq<(Seq<char>, JsonV)>
    decreases n,
{
    if n <= 0 {
        seq![]
    } else {
        with_pair(element_attrs(attrs, n - 1), attrs[n - 1].name, JsonV::Text(attrs[n - 1].value), 0)
    }
}

pub open spec fn attrs_of(html: Seq<char>, i: int) -> Seq<AttrV> {
    match dom_of(html)[i].kind {
        KindV::Element(a) => a,
        _ => seq![],
    }
}

/// An element as scripts see it.
pub open spec fn element_json(html: Seq<char>, i: int) -> JsonV {
    JsonV::Object(
        seq![
            ("__readerHtmlElement"@, JsonV::Bool(true)),
            ("attrs"@, JsonV::Object(element_attrs(attrs_of(html, i), attrs_of(html, i).len() as int))),
            ("html"@, JsonV::Text(inner_html_of(html, i))),
            ("outerHtml"@, JsonV::Text(outer_html_of(html, i))),
            ("text"@, JsonV::Text(whole_text_of(dom_of(html), i))),
        ],
    )
}

pub fn attrs_value(attrs: &Vec<Attr>) -> (r: Json)
    ensures
        r.model() == JsonV::Object(element_attrs(attr_models(attrs@), attrs.len() as int)),
{
    broadcast use lemma_object_model;

    let ghost all = attr_models(attrs@);
    let mut m: Vec<(String, Json)> = Vec::new();
    let mut k: usize = 0;
    assert(member_models(m@) =~= seq![]);
    while k < attrs.len()
        invariant
            k <= attrs.len(),
            all == attr_models(attrs@),
            member_models(m@) == element_attrs(all, k as int),
        decreases attrs.len() - k,
    {
        assert(all[k as int] == attrs@[k as int].model());
        let a: &Attr = &attrs[k];
        set_member(&mut m, a.name.clone(), Json::Text(a.value.clone()));
        k = k + 1;
    }
    Json::Object(m)
}

pub fn element_value(doc: &Document, node: usize) -> (r: Json)
    requires
        doc.wf(),
        is_element(doc.dom(), node as int),
    ensures
        r.model() == element_json(doc.source(), node as int),
{
    broadcast use lemma_object_model;

    let me = doc.node(node);
    let attrs = match &me.kind {
        Kind::Element(a) => {
            assert(attr_models(a@).len() == a.len());
            attrs_value(a)
        },
        _ => {
            let none: Vec<Attr> = Vec::new();
            assert(attr_models(none@) =~= seq![]);
            attrs_value(&none)
        },
    };
    let mut m: Vec<(String, Json)> = Vec::new();
    assert(member_models(m@) =~= seq![]);
    put(&mut m, "__readerHtmlElement", Json::Bool(true));
    put(&mut m, "attrs", attrs);
    put(&mut m, "html", Json::Text(inner_html(doc, node)));
    put(&mut m, "outerHtml", Json::Text(outer_html(doc, node)));
    put(&mut m, "text", Json::Text(whole_text(doc, node)));
    assert(member_models(m@) =~= element_json(doc.source(), node as int)->Object_0);
    Json::Object(m)
}

/// A list of elements in JSON.
pub open spec fn elements_text(html: Seq<char>, s: Seq<int>) -> Seq<char> {
    json_text_of(JsonV::Array(Seq::new(s.len(), |k: int| element_json(html, s[k]))))
}

pub fn write_elements(doc: &Document, s: &Vec<usize>) -> (r: String)
    requires
        doc.wf(),
        all_elements(doc.dom(), ints(s@)),
    ensures
        r@ == elements_text(doc.source(), ints(s@)),
{
    broadcast use lemma_array_model;

    let ghost all = ints(s@);
    let ghost goal = Seq::new(all.len(), |k: int| element_json(doc.source(), all[k]));
    let mut v: Vec<Json> = Vec::new();
    let mut k: usize = 0;
    while k < s.len()
        invariant
            k <= s.len(),
            doc.wf(),
            all == ints(s@),
            all_elements(doc.dom(), all),
            goal == Seq::new(all.len(), |k: int| element_json(doc.source(), all[k])),
            json_models(v@) =~= goal.take(k as int),
        decreases s.len() - k,
    {
        let ghost before = json_models(v@);
        assert(all[k as int] == s@[k as int] as int);
        v.push(element_value(doc, s[k]));
        assert(json_models(v@) =~= before.push(goal[k as int]));
        k = k + 1;
    }
    assert(goal.take(k as int) =~= goal);
    json_to_text(&Json::Array(v))
}

/// A list of texts in JSON.
pub open spec fn texts_text(v: Seq<Seq<char>>) -> Seq<char> {
    json_text_of(texts_json(v))
}

/// The elements of a rule, as `java.getElements` gives them to a script: members
/// of JSON, nodes of an XPath, values of other rules, or elements of a document.
pub open spec fn got_elements(
    rule: Seq<char>,
    content: Seq<char>,
    base: Seq<char>,
    raw_css: bool,
    w: World,
    o: Oracle,
) -> (Seq<char>, World) {
    let r = trim_of(rule);
    let c = trim_of(content);
    if r.len() == 0 || c.len() == 0 {
        ("[]"@, w)
    } else if !raw_css && !is_marked_css(r) && !is_marked_other(r) && (is_marked_json(r) || json_of(c) is Some) {
        (
            match json_of(c) {
                Some(v) => json_text_of(JsonV::Array(json_members_of(v, element_path(r)))),
                None => "[]"@,
            },
            w,
        )
    } else if !raw_css && xpath_rule_of(r) is Some {
        xpath_values(c, xpath_rule_of(r)->0, w, o)
    } else if !raw_css && (has_prefix(r, "@regex:"@) || has_prefix(r, ":"@) || has_prefix(r, "@js:"@) || has_prefix(
        r,
        "js:"@,
    )) {
        let x = got_list(r, GetV { target: trim_of(c), base, is_url: false, unescape: false }, w, o);
        (texts_text(x.0), x.1)
    } else {
        let s = element_selector(r, raw_css);
        (
            if raw_css {
                elements_text(c, selected(c, s))
            } else {
                elements_text(c, list_of(c, s))
            },
            w,
        )
    }
}

fn find_selector(rule: &str, lower: &str, raw_css: bool) -> (r: String)
    requires
        lower@ == lower_ascii_of(rule@),
    ensures
        r@ == element_selector(rule@, raw_css),
{
    proof {
        reveal_strlit("@@");
        reveal_strlit("@css:");
    }
    let v = chars_of(rule);
    if raw_css {
        trim(rule)
    } else if starts_with(rule, "@@") {
        trim(string_range(&v, 2, v.len()).as_str())
    } else if starts_with(lower, "@css:") {
        trim(string_range(&v, 5, v.len()).as_str())
    } else {
        trim(rule)
    }
}

fn find_path(rule: &str, lower: &str) -> (r: String)
    requires
        lower@ == lower_ascii_of(rule@),
    ensures
        r@ == element_path(rule@),
{
    proof {
        reveal_strlit("@json:");
    }
    if starts_with(lower, "@json:") {
        let v = chars_of(rule);
        trim(string_range(&v, 6, v.len()).as_str())
    } else {
        trim(rule)
    }
}

/// Selects elements for a script, with a selector as it is or as a rule.
pub fn java_get_elements_json_with_mode<E: ScriptEngine>(
    rule: &str,
    content: &str,
    base_url: &str,
    raw_css: bool,
    host: &mut Host<E>,
) -> (r: String)
    ensures
        offline(old(host).log(), final(host).log()),
        forall|o: Oracle| #[trigger]
            agrees(final(host).log(), o) ==> got_elements(rule@, content@, base_url@, raw_css, old(host).world(), o) == (
                r@,
                final(host).world(),
            ),
{
    broadcast use group_log;
    broadcast use lemma_array_model;

    let rule = trim(rule);
    let content = trim(content);
    let t = rule.as_str();
    let c = content.as_str();
    if is_empty_text(t) || is_empty_text(c) {
        return "[]".to_owned();
    }
    let lower = to_ascii_lowercase(t);
    let low = lower.as_str();
    let marked_css = starts_with(t, "@@") || starts_with(low, "@css:");
    let xpath = xpath_rule(t);
    let marked_other = xpath.is_some() || starts_with(low, "@regex:") || starts_with(low, "@js:") || starts_with(low, "js:")
        || starts_with(t, ":");
    let parsed = parse_json(c);
    let marked_json = starts_with(t, "$") || starts_with(low, "@json:");
    if !raw_css && !marked_css && !marked_other && (marked_json || parsed.is_some()) {
        return match parsed {
            Some(v) => {
                let found = select_json_members(&v, find_path(t, low).as_str());
                json_to_text(&Json::Array(found))
            },
            None => "[]".to_owned(),
        };
    }
    if !raw_css {
        if let Some(pure) = xpath {
            return select_xpath_elements_json(c, pure.as_str(), host);
        }
        if starts_with(t, "@regex:") || starts_with(t, ":") || starts_with(t, "@js:") || starts_with(t, "js:") {
            let none = blank();
            let list = java_get_string_list(Some(t), Some(c), none.as_str(), base_url, false, host);
            return json_to_text(&texts_value(&list));
        }
    }
    let selector = find_selector(t, low, raw_css);
    let doc = parse_document(c);
    let found = if raw_css {
        select_css_list(&doc, selector.as_str())
    } else {
        select_list(&doc, selector.as_str())
    };
    write_elements(&doc, &found)
}

/// Selects elements for a script by a rule.
pub fn java_get_elements_json<E: ScriptEngine>(rule: &str, content: &str, base_url: &str, host: &mut Host<E>) -> (r: String)
    ensures
        offline(old(host).log(), final(host).log()),
        forall|o: Oracle| #[trigger]
            agrees(final(host).log(), o) ==> got_elements(rule@, content@, base_url@, false, old(host).world(), o) == (
                r@,
                final(host).world(),
            ),
{
    java_get_elements_json_with_mode(rule, content, base_url, false, host)
}

} // verus!
