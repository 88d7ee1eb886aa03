//! Selection in JSON values by path rules.

use crate::ext::json::{
    copy_json, json_models, json_text_of, json_to_text, jsonpath_of, lemma_array_model, lemma_object_model,
    select_path, Json, JsonV,
};
use crate::ext::regexes::{
    assemble, assembled, find_matches, found_models, opt_texts, regex_matches, FoundV, Matches, MatchesV,
};
use crate::parser::path_guard::{may_abort, path_may_abort};
use crate::util::chars::{
    chars_of, concat, contains, contains_text, copy, has_prefix, is_empty_text, join, join_of, opt_text, starts_with,
    texts, trim, trim_of,
};
use vstd::prelude::*;
use vstd::string::*;

verus! {

/// What a scan of a path remembers: the open parentheses of a filter, whether
/// it is in brackets within the filter, and the open quote.
pub struct PathScan {
    pub depth: int,
    pub brackets: bool,
    pub quote: Option<char>,
    pub escaped: bool,
}

/// Whether a filter of the path, from position `i` on, holds a named key, a
/// range or a union: a quote, `:` or `,` in brackets within `?(..)`.
pub open spec fn unsupported_from(s: Seq<char>, i: int, p: PathScan) -> bool
    decreases s.len() - i,
{
    if i < 0 || i >= s.len() {
        false
    } else {
        let c = s[i];
        match p.quote {
            Some(q) => if p.escaped {
                unsupported_from(s, i + 1, PathScan { escaped: false, ..p })
            } else if c == '\\' {
                unsupported_from(s, i + 1, PathScan { escaped: true, ..p })
            } else if c == q {
                unsupported_from(s, i + 1, PathScan { quote: None, ..p })
            } else {
                unsupported_from(s, i + 1, p)
            },
            None => if c == '\'' || c == '"' {
                if p.brackets {
                    true
                } else {
                    unsupported_from(s, i + 1, PathScan { quote: Some(c), ..p })
                }
            } else if p.depth > 0 {
                if c == '[' {
                    unsupported_from(s, i + 1, PathScan { brackets: true, ..p })
                } else if c == ']' {
                    unsupported_from(s, i + 1, PathScan { brackets: false, ..p })
                } else if (c == ':' || c == ',') && p.brackets {
                    true
                } else if c == '(' {
                    unsupported_from(s, i + 1, PathScan { depth: p.depth + 1, ..p })
                } else if c == ')' {
                    unsupported_from(s, i + 1, PathScan { depth: p.depth - 1, ..p })
                } else {
                    unsupported_from(s, i + 1, p)
                }
            } else if c == '?' && i + 1 < s.len() && s[i + 1] == '(' {
                unsupported_from(s, i + 2, PathScan { depth: 1, ..p })
            } else {
                unsupported_from(s, i + 1, p)
            },
        }
    }
}

pub open spec fn unsupported_path(s: Seq<char>) -> bool {
    unsupported_from(s, 0, PathScan { depth: 0, brackets: false, quote: None, escaped: false })
}

/// Whether a filter of a path holds a named key, a range or a union.
pub fn has_unsupported_filter_selector(rule: &str) -> (r: bool)
    ensures
        r == unsupported_path(rule@),
{
    let v = chars_of(rule);
    let mut depth: usize = 0;
    let mut brackets = false;
    let mut quote: Option<char> = None;
    let mut escaped = false;
    let mut i: usize = 0;
    while i < v.len()
        invariant
            v@ == rule@,
            i <= v.len(),
            depth <= i,
            unsupported_path(rule@) == unsupported_from(
                rule@,
                i as int,
                PathScan { depth: depth as int, brackets, quote, escaped },
            ),
        decreases v.len() - i,
    {
        let c = v[i];
        if let Some(q) = quote {
            if escaped {
                escaped = false;
            } else if c == '\\' {
                escaped = true;
            } else if c == q {
                quote = None;
            }
        } else if c == '\'' || c == '"' {
            if brackets {
                return true;
            }
            quote = Some(c);
        } else if depth > 0 {
            if c == '[' {
                brackets = true;
            } else if c == ']' {
                brackets = false;
            } else if (c == ':' || c == ',') && brackets {
                return true;
            } else if c == '(' {
                depth = depth + 1;
            } else if c == ')' {
                depth = depth - 1;
            }
        } else if c == '?' && i + 1 < v.len() && v[i + 1] == '(' {
            depth = 1;
            i = i + 1;
        }
        i = i + 1;
    }
    false
}

/// The text of a value: none for `null`, the items of an array one per line.
pub open spec fn value_text(v: JsonV) -> Option<Seq<char>>
    decreases v,
{
    match v {
        JsonV::Null => None,
        JsonV::Text(s) => Some(s),
        JsonV::Number(n) => Some(n),
        JsonV::Bool(b) => Some(
            if b {
                "true"@
            } else {
                "false"@
            },
        ),
        JsonV::Array(items) => Some(join_of(value_texts(items, items.len() as int), "\n"@)),
        JsonV::Object(_) => Some(json_text_of(v)),
    }
}

/// The texts of the first `n` values that have one.
pub open spec fn value_texts(items: Seq<JsonV>, n: int) -> Seq<Seq<char>>
    decreases items, n,
{
    if n <= 0 || n > items.len() {
        seq![]
    } else {
        match value_text(items[n - 1]) {
            Some(t) => value_texts(items, n - 1).push(t),
            None => value_texts(items, n - 1),
        }
    }
}

pub fn value_to_string(v: &Json) -> (r: Option<String>)
    ensures
        opt_text(r) == value_text(v.model()),
    decreases *v,
{
    broadcast use {lemma_array_model, lemma_object_model};

    match v {
        Json::Null => None,
        Json::Text(s) => Some(s.clone()),
        Json::Number(n) => Some(n.to_text()),
        Json::Bool(b) => Some(
            if *b {
                "true".to_owned()
            } else {
                "false".to_owned()
            },
        ),
        Json::Array(items) => {
            let mut out: Vec<String> = Vec::new();
            let mut i: usize = 0;
            let ghost all = json_models(items@);
            assert(texts(out@) =~= seq![]);
            while i < items.len()
                invariant
                    i <= items.len(),
                    *v == Json::Array(*items),
                    all == json_models(items@),
                    texts(out@) == value_texts(all, i as int),
                decreases items.len() - i,
            {
                assert(all[i as int] == items@[i as int].model());
                assert(decreases_to!(*v => v->Array_0));
                assert(decreases_to!(*items => items@[i as int]));
                if let Some(t) = value_to_string(&items[i]) {
                    let ghost before = texts(out@);
                    let ghost x = t@;
                    out.push(t);
                    assert(texts(out@) =~= before.push(x));
                }
                i = i + 1;
            }
            assert(all.len() == items.len());
            Some(join(&out, "\n"))
        },
        Json::Object(_) => Some(json_to_text(v)),
    }
}

/// The path in full: from the root, and with a dot before a name.
pub open spec fn full_path(rule: Seq<char>) -> Seq<char> {
    if has_prefix(rule, "$"@) {
        rule
    } else if has_prefix(rule, "["@) {
        "$"@ + rule
    } else {
        "$."@ + rule
    }
}

/// The values with the items of arrays in place of the arrays.
pub open spec fn opened_arrays(found: Seq<JsonV>, n: int) -> Seq<JsonV>
    decreases n,
{
    if n <= 0 {
        seq![]
    } else {
        match found[n - 1] {
            JsonV::Array(items) => opened_arrays(found, n - 1) + items,
            other => opened_arrays(found, n - 1).push(other),
        }
    }
}

/// What a path without embedded paths selects: nothing for a blank path, one
/// with an unsupported filter, one that cannot be evaluated safely or one that
/// cannot be read.
pub open spec fn plain_query(v: JsonV, rule: Seq<char>) -> Seq<JsonV> {
    let path = full_path(trim_of(rule));
    if trim_of(rule).len() == 0 || unsupported_path(path) || may_abort(path) {
        seq![]
    } else {
        match jsonpath_of(v, path) {
            Some(found) => opened_arrays(found, found.len() as int),
            None => seq![],
        }
    }
}

pub fn complete_path(rule: &str) -> (r: String)
    ensures
        r@ == full_path(rule@),
{
    if starts_with(rule, "$") {
        copy(rule)
    } else if starts_with(rule, "[") {
        concat("$", rule)
    } else {
        concat("$.", rule)
    }
}

pub fn select_plain(value: &Json, rule: &str) -> (r: Vec<Json>)
    ensures
        json_models(r@) == plain_query(value.model(), rule@),
{
    let rule = trim(rule);
    let out: Vec<Json> = Vec::new();
    assert(json_models(out@) =~= seq![]);
    if is_empty_text(rule.as_str()) {
        return out;
    }
    let path = complete_path(rule.as_str());
    if has_unsupported_filter_selector(path.as_str()) || path_may_abort(path.as_str()) {
        return out;
    }
    match select_path(value, path.as_str()) {
        Some(found) => open_arrays(&found),
        None => out,
    }
}

/// The values, with the items of an array in its place.
pub fn open_arrays(found: &Vec<Json>) -> (r: Vec<Json>)
    ensures
        json_models(r@) == opened_arrays(json_models(found@), found.len() as int),
{
    broadcast use lemma_array_model;

    let mut out: Vec<Json> = Vec::new();
    assert(json_models(out@) =~= seq![]);
    let ghost all = json_models(found@);
    let mut i: usize = 0;
    while i < found.len()
        invariant
            i <= found.len(),
            all == json_models(found@),
            json_models(out@) == opened_arrays(all, i as int),
        decreases found.len() - i,
    {
        assert(all[i as int] == found@[i as int].model());
        let ghost before = json_models(out@);
        match &found[i] {
            Json::Array(items) => {
                let mut k: usize = 0;
                while k < items.len()
                    invariant
                        k <= items.len(),
                        json_models(out@) =~= before + json_models(items@).take(k as int),
                    decreases items.len() - k,
                {
                    let ghost here = json_models(out@);
                    let x = copy_json(&items[k]);
                    let ghost m = x.model();
                    out.push(x);
                    assert(json_models(out@) =~= here.push(m));
                    k = k + 1;
                }
                assert(json_models(items@).take(items.len() as int) =~= json_models(items@));
            },
            other => {
                let x = copy_json(other);
                let ghost m = x.model();
                out.push(x);
                assert(json_models(out@) =~= before.push(m));
            },
        }
        i = i + 1;
    }
    assert(all.len() == found.len());
    out
}

pub open spec fn first_text_of(found: Seq<JsonV>) -> Option<Seq<char>> {
    if found.len() > 0 {
        value_text(found[0])
    } else {
        None
    }
}

pub fn first_plain(value: &Json, rule: &str) -> (r: Option<String>)
    ensures
        opt_text(r) == first_text_of(plain_query(value.model(), rule@)),
{
    let found = select_plain(value, rule);
    assert(json_models(found@).len() == found.len());
    if found.len() == 0 {
        return None;
    }
    assert(json_models(found@)[0] == found@[0].model());
    value_to_string(&found[0])
}

/// The pattern of a path that is embedded in a rule, `{{$..}}` or `{$..}`.
pub open spec fn embedded_pattern() -> Seq<char> {
    "\\{\\{\\s*(\\$[^}]+?)\\s*\\}\\}|\\{\\s*(\\$[^}]+?)\\s*\\}"@
}

/// The path of a match: what either form holds.
pub open spec fn embedded_path(groups: Seq<Option<Seq<char>>>) -> Seq<char> {
    if groups.len() > 1 && groups[1] is Some {
        groups[1]->0
    } else if groups.len() > 2 && groups[2] is Some {
        groups[2]->0
    } else {
        seq![]
    }
}

/// What the embedded paths are replaced by: the first value of each, blank
/// where it has none.
pub open spec fn embedded_values(v: JsonV, found: Seq<FoundV>) -> Seq<Seq<char>> {
    Seq::new(
        found.len(),
        |i: int|
            match first_text_of(plain_query(v, embedded_path(found[i].groups))) {
                Some(t) => t,
                None => seq![],
            },
    )
}

/// A rule with its embedded paths replaced by what they select, if it has any.
pub open spec fn rendered(v: JsonV, rule: Seq<char>) -> Option<Seq<char>> {
    if !contains_text(rule, "$"@) || !contains_text(rule, "{"@) {
        None
    } else {
        match regex_matches(embedded_pattern(), rule) {
            Some(m) => found_rendered(v, m),
            None => None,
        }
    }
}

/// A rule with the paths that were found in it replaced by what they select.
pub open spec fn found_rendered(v: JsonV, m: MatchesV) -> Option<Seq<char>> {
    if m.found.len() > 0 {
        Some(assembled(m, embedded_values(v, m.found), m.found.len() as int) + m.tail)
    } else {
        None
    }
}

pub fn group_or_blank(groups: &Vec<Option<String>>) -> (r: String)
    ensures
        r@ == embedded_path(opt_texts(groups@)),
{
    if groups.len() > 1 {
        assert(opt_texts(groups@)[1] == opt_text(groups@[1]));
        if let Some(t) = &groups[1] {
            return t.clone();
        }
    }
    if groups.len() > 2 {
        assert(opt_texts(groups@)[2] == opt_text(groups@[2]));
        if let Some(t) = &groups[2] {
            return t.clone();
        }
    }
    let r = String::new();
    assert(r@ =~= seq![]);
    r
}

/// Replaces the paths embedded in a rule. An embedded path holds no brace, so
/// none is embedded in it.
/// Replaces the paths in braces of a rule; none where it has no such path.
pub fn render_embedded_paths(value: &Json, rule: &str) -> (r: Option<String>)
    ensures
        opt_text(r) == rendered(value.model(), rule@),
{
    if !contains(rule, "$") || !contains(rule, "{") {
        return None;
    }
    match find_matches("\\{\\{\\s*(\\$[^}]+?)\\s*\\}\\}|\\{\\s*(\\$[^}]+?)\\s*\\}", rule) {
        Some(m) => render_found(value, &m),
        None => None,
    }
}

/// Replaces the paths that were found in a rule by what they select.
pub fn render_found(value: &Json, m: &Matches) -> (r: Option<String>)
    ensures
        opt_text(r) == found_rendered(value.model(), m.model()),
{
    let ghost all = found_models(m.found@);
    assert(all.len() == m.found.len());
    if m.found.len() == 0 {
        return None;
    }
    let mut parts: Vec<String> = Vec::new();
    let mut i: usize = 0;
    while i < m.found.len()
        invariant
            i <= m.found.len(),
            all == found_models(m.found@),
            texts(parts@) =~= embedded_values(value.model(), all).take(i as int),
        decreases m.found.len() - i,
    {
        assert(all[i as int] == m.found@[i as int].model());
        let path = group_or_blank(&m.found[i].groups);
        let t = match first_plain(value, path.as_str()) {
            Some(t) => t,
            None => String::new(),
        };
        let ghost before = texts(parts@);
        let ghost x = t@;
        parts.push(t);
        assert(texts(parts@) =~= before.push(x));
        assert(x =~= embedded_values(value.model(), all)[i as int]);
        i = i + 1;
    }
    assert(embedded_values(value.model(), all).take(all.len() as int) =~= embedded_values(value.model(), all));
    assert(parts.len() == texts(parts@).len());
    Some(assemble(m, &parts))
}

/// What a path rule selects: the rule itself with its embedded paths replaced,
/// if it has any, else the values of the path, arrays opened.
pub open spec fn query_of(v: JsonV, rule: Seq<char>) -> Seq<JsonV> {
    match rendered(v, rule) {
        Some(t) => seq![JsonV::Text(t)],
        None => plain_query(v, rule),
    }
}

pub fn jsonpath_query(value: &Json, rule: &str) -> (r: Vec<Json>)
    ensures
        json_models(r@) == query_of(value.model(), rule@),
{
    if let Some(t) = render_embedded_paths(value, rule) {
        let mut r: Vec<Json> = Vec::new();
        let ghost x = t@;
        r.push(Json::Text(t));
        assert(json_models(r@) =~= seq![JsonV::Text(x)]);
        return r;
    }
    select_plain(value, rule)
}

/// The text of the first value that a path rule selects.
pub open spec fn first_string_of(v: JsonV, rule: Seq<char>) -> Option<Seq<char>> {
    first_text_of(query_of(v, rule))
}

pub fn jsonpath_first_string(value: &Json, rule: &str) -> (r: Option<String>)
    ensures
        opt_text(r) == first_string_of(value.model(), rule@),
{
    if let Some(t) = render_embedded_paths(value, rule) {
        return Some(t);
    }
    first_plain(value, rule)
}

} // verus!
