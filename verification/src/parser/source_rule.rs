//! Rules as sources write them: their mode, the variables that they set, the
//! script at their end and the replacement after `##`.

use crate::ext::json::{
    json_models, json_of, json_text_of, json_to_text, lemma_array_model, lemma_object_model, member_models, parse_json,
    Json, JsonV,
};
use crate::ext::regexes::{
    assemble, assembled, find_matches, found_models, opt_texts, regex_matches, regex_replaced, regex_replaced_first,
    replace_first_match, replace_matches, FoundV, Matches, MatchesV,
};
use crate::ext::urls::{url_plain, url_without_fragment};
use crate::parser::jsonpath::{first_string_of, jsonpath_first_string, value_text, value_to_string};
use crate::parser::markup::{group_at, group_text};
use crate::parser::rule_analyzer::{lemma_parts_nonempty, split_result, split_top_level, strs};
use crate::util::address::{resolve_url, resolved_url};
use crate::util::chars::{
    alphabetic, chars_find, chars_of, concat, concat3, copy, decimal, decimal_of, ends_with, eq_ignore_ascii_case,
    find, find_ascii_case, find_from, find_ignore_case_from, find_of, has_prefix, has_prefix_ignore_case, has_suffix,
    is_alphabetic, is_empty_text, is_quote, join, join_of, list_contains, lower_ascii_of, opt_text, parse_unsigned,
    replace, replace_of, rfind, rfind_of, same, split, split_of, starts_with, string_range, strip_prefix,
    strip_prefix_ascii_case, strip_prefix_ignore_case_of, strip_prefix_of, strip_suffix, strip_suffix_of, texts,
    to_ascii_lowercase, trim, trim_end_matches, trim_of, trim_quotes, trim_start, trim_start_char, trim_start_matches,
    trim_start_of, trim_start_of_char, unsigned_of, within, without_prefixes, without_quotes, without_suffixes,
};
use crate::util::text::{normalize_source_url, normalized_url};
use vstd::prelude::*;
use vstd::string::*;

verus! {

#[derive(Debug, Clone, Copy, PartialEq, Eq, Structural)]
pub enum ParseMode {
    Css,
    XPath,
    JsonPath,
    Regex,
    Js,
}

/// The mode of a rule and the rule without the mark of its mode.
pub open spec fn mode_of(raw: Seq<char>, fallback: ParseMode, json: bool) -> (ParseMode, Seq<char>) {
    let rule = trim_of(raw);
    if fallback == ParseMode::Js || fallback == ParseMode::Regex {
        (fallback, rule)
    } else if has_prefix_ignore_case(rule, "@css:"@) {
        (ParseMode::Css, trim_of(rule.subrange("@css:"@.len() as int, rule.len() as int)))
    } else if has_prefix(rule, "@@"@) {
        (ParseMode::Css, rule.subrange("@@"@.len() as int, rule.len() as int))
    } else if has_prefix_ignore_case(rule, "@xpath:"@) {
        (ParseMode::XPath, rule.subrange("@xpath:"@.len() as int, rule.len() as int))
    } else if has_prefix_ignore_case(rule, "@json:"@) {
        (ParseMode::JsonPath, rule.subrange("@json:"@.len() as int, rule.len() as int))
    } else if has_prefix_ignore_case(rule, "@regex:"@) {
        (ParseMode::Regex, trim_of(rule.subrange("@regex:"@.len() as int, rule.len() as int)))
    } else if has_prefix_ignore_case(rule, "js:"@) {
        (ParseMode::Js, trim_of(rule.subrange("js:"@.len() as int, rule.len() as int)))
    } else if has_prefix_ignore_case(rule, "@js:"@) {
        (ParseMode::Js, trim_of(rule.subrange("@js:"@.len() as int, rule.len() as int)))
    } else if has_prefix(rule, "<js>"@) {
        (ParseMode::Js, rule)
    } else if json || has_prefix(rule, "$."@) || has_prefix(rule, "$["@) {
        (ParseMode::JsonPath, rule)
    } else if has_prefix(rule, "/"@) || has_prefix(rule, "./"@) {
        (ParseMode::XPath, rule)
    } else if has_prefix(rule, ":"@) {
        (ParseMode::Regex, rule)
    } else {
        (fallback, rule)
    }
}

/// Tells the mode of a rule from its prefix, or from the content that it is
/// applied to; scripts and regular expressions keep their mode.
pub fn classify_rule_mode(raw_rule: &str, fallback: ParseMode, content_is_json: bool) -> (r: (ParseMode, String))
    ensures
        (r.0, r.1@) == mode_of(raw_rule@, fallback, content_is_json),
{
    let rule = trim(raw_rule);
    let s = rule.as_str();
    if fallback == ParseMode::Js || fallback == ParseMode::Regex {
        return (fallback, rule);
    }
    if let Some(rest) = strip_prefix_ascii_case(s, "@css:") {
        return (ParseMode::Css, trim(rest.as_str()));
    }
    if let Some(rest) = strip_prefix(s, "@@") {
        return (ParseMode::Css, rest);
    }
    if let Some(rest) = strip_prefix_ascii_case(s, "@xpath:") {
        return (ParseMode::XPath, rest);
    }
    if let Some(rest) = strip_prefix_ascii_case(s, "@json:") {
        return (ParseMode::JsonPath, rest);
    }
    if let Some(rest) = strip_prefix_ascii_case(s, "@regex:") {
        return (ParseMode::Regex, trim(rest.as_str()));
    }
    if let Some(rest) = strip_prefix_ascii_case(s, "js:") {
        return (ParseMode::Js, trim(rest.as_str()));
    }
    if let Some(rest) = strip_prefix_ascii_case(s, "@js:") {
        return (ParseMode::Js, trim(rest.as_str()));
    }
    if starts_with(s, "<js>") {
        return (ParseMode::Js, rule);
    }
    if content_is_json || starts_with(s, "$.") || starts_with(s, "$[") {
        return (ParseMode::JsonPath, rule);
    }
    if starts_with(s, "/") || starts_with(s, "./") {
        return (ParseMode::XPath, rule);
    }
    if starts_with(s, ":") {
        return (ParseMode::Regex, rule);
    }
    (fallback, rule)
}

/// The position of the brace that closes the object opened before `i`, outside
/// quotes.
pub open spec fn object_end_from(s: Seq<char>, i: int, quote: Option<char>, escaped: bool) -> Option<int>
    decreases s.len() - i,
{
    if i < 0 || i >= s.len() {
        None
    } else {
        match quote {
            Some(q) => if escaped {
                object_end_from(s, i + 1, quote, false)
            } else if s[i] == '\\' {
                object_end_from(s, i + 1, quote, true)
            } else if s[i] == q {
                object_end_from(s, i + 1, None, escaped)
            } else {
                object_end_from(s, i + 1, quote, escaped)
            },
            None => if s[i] == '\'' || s[i] == '"' {
                object_end_from(s, i + 1, Some(s[i]), escaped)
            } else if s[i] == '}' {
                Some(i)
            } else {
                object_end_from(s, i + 1, quote, escaped)
            },
        }
    }
}

pub fn find_put_object_end(v: &Vec<char>, open: usize) -> (r: Option<usize>)
    requires
        open < v.len(),
    ensures
        match r {
            Some(k) => open < k < v.len() && object_end_from(v@, open + 1, None, false) == Some(k as int),
            None => object_end_from(v@, open + 1, None, false) is None,
        },
{
    let mut quote: Option<char> = None;
    let mut escaped = false;
    let mut i: usize = open + 1;
    while i < v.len()
        invariant
            open < i <= v.len(),
            object_end_from(v@, open + 1, None, false) == object_end_from(v@, i as int, quote, escaped),
        decreases v.len() - i,
    {
        let c = v[i];
        if let Some(q) = quote {
            if escaped {
                escaped = false;
            } else if c == '\\' {
                escaped = true;
            } else if c == q {
                quote = None;
            }
        } else if c == '\'' || c == '"' {
            quote = Some(c);
        } else if c == '}' {
            return Some(i);
        }
        i = i + 1;
    }
    None
}

/// A variable to set, and the rule that gives its value.
#[derive(Debug, Clone, PartialEq, Eq)]
pub struct PutEntry {
    pub key: String,
    pub value_rule: String,
}

pub open spec fn put_models(v: Seq<PutEntry>) -> Seq<(Seq<char>, Seq<char>)> {
    Seq::new(v.len(), |i: int| (v[i].key@, v[i].value_rule@))
}

/// A value without the quotes around it, and with its escapes replaced.
pub open spec fn unquoted(value: Seq<char>) -> Seq<char> {
    let v = trim_of(value);
    if v.len() >= 2 && is_quote(v[0]) && v.last() == v[0] {
        let inner = v.subrange(1, v.len() - 1);
        if v[0] == '"' {
            match json_of(v) {
                Some(JsonV::Text(t)) => t,
                _ => inner,
            }
        } else {
            replace_of(replace_of(inner, "\\'"@, "'"@), "\\\\"@, "\\"@)
        }
    } else {
        v
    }
}

pub fn unquote_put_value(value: &str) -> (r: String)
    ensures
        r@ == unquoted(value@),
{
    broadcast use {lemma_array_model, lemma_object_model};

    let t = trim(value);
    let v = chars_of(t.as_str());
    if v.len() >= 2 && (v[0] == '\'' || v[0] == '"') && v[v.len() - 1] == v[0] {
        let inner = string_range(&v, 1, v.len() - 1);
        if v[0] == '"' {
            return match parse_json(t.as_str()) {
                Some(Json::Text(s)) => s,
                _ => inner,
            };
        }
        proof {
            reveal_strlit("\\'");
            reveal_strlit("\\\\");
        }
        let s = replace(inner.as_str(), "\\'", "'");
        return replace(s.as_str(), "\\\\", "\\");
    }
    t
}

/// The rule that a member of a JSON object gives: a string, or the text of a
/// number or a truth value.
pub open spec fn scalar_text(v: JsonV) -> Option<Seq<char>> {
    match v {
        JsonV::Text(s) => Some(s),
        JsonV::Bool(_) => Some(json_text_of(v)),
        JsonV::Number(_) => Some(json_text_of(v)),
        _ => None,
    }
}

/// The variables that the first `n` members of a JSON object set.
pub open spec fn member_puts(m: Seq<(Seq<char>, JsonV)>, n: int) -> Seq<(Seq<char>, Seq<char>)>
    decreases n,
{
    if n <= 0 {
        seq![]
    } else {
        match scalar_text(m[n - 1].1) {
            Some(t) => member_puts(m, n - 1).push((m[n - 1].0, t)),
            None => member_puts(m, n - 1),
        }
    }
}

/// The variable that `key: rule` sets; the rule may hold colons.
pub open spec fn pair_put(part: Seq<char>) -> Option<(Seq<char>, Seq<char>)> {
    let p = split_result(part, seq![":"@]);
    let key = without_quotes(trim_of(p[0]));
    if p.len() < 2 || key.len() == 0 {
        None
    } else {
        Some((key, unquoted(join_of(p.subrange(1, p.len() as int), ":"@))))
    }
}

/// The variables that the first `n` parts of a list set.
pub open spec fn list_puts(parts: Seq<Seq<char>>, n: int) -> Seq<(Seq<char>, Seq<char>)>
    decreases n,
{
    if n <= 0 {
        seq![]
    } else {
        match pair_put(parts[n - 1]) {
            Some(x) => list_puts(parts, n - 1).push(x),
            None => list_puts(parts, n - 1),
        }
    }
}

/// The variables that an object `{..}` sets: a JSON object, or a list of pairs
/// in a looser form.
pub open spec fn object_puts(object: Seq<char>) -> Seq<(Seq<char>, Seq<char>)> {
    match json_of(object) {
        Some(JsonV::Object(m)) => member_puts(m, m.len() as int),
        _ => match strip_prefix_of(object, "{"@) {
            Some(x) => match strip_suffix_of(x, "}"@) {
                Some(inner) => {
                    let parts = split_result(inner, seq![","@]);
                    list_puts(parts, parts.len() as int)
                },
                None => seq![],
            },
            None => seq![],
        },
    }
}

pub fn scalar_rule(v: &Json) -> (r: Option<String>)
    ensures
        opt_text(r) == scalar_text(v.model()),
{
    broadcast use {lemma_array_model, lemma_object_model};

    match v {
        Json::Text(s) => Some(s.clone()),
        Json::Bool(_) => Some(json_to_text(v)),
        Json::Number(_) => Some(json_to_text(v)),
        _ => None,
    }
}

pub fn parse_pair(part: &str) -> (r: Option<PutEntry>)
    ensures
        match r {
            Some(e) => pair_put(part@) == Some((e.key@, e.value_rule@)),
            None => pair_put(part@) is None,
        },
{
    proof {
        reveal_strlit(":");
        lemma_parts_nonempty(part@, seq![":"@]);
    }
    let list = [":"];
    assert(strs(list@) =~= seq![":"@]);
    let p = split_top_level(part, &list).parts;
    let ghost all = split_result(part@, seq![":"@]);
    assert(all.len() == p.len());
    assert(all[0] == p@[0]@);
    let key = trim_quotes(trim(p[0].as_str()).as_str());
    if p.len() < 2 || is_empty_text(key.as_str()) {
        return None;
    }
    let mut rest: Vec<String> = Vec::new();
    let mut k: usize = 1;
    assert(texts(rest@) =~= all.subrange(1, 1));
    while k < p.len()
        invariant
            1 <= k <= p.len(),
            all == texts(p@),
            texts(rest@) == all.subrange(1, k as int),
        decreases p.len() - k,
    {
        let ghost before = texts(rest@);
        rest.push(p[k].clone());
        assert(texts(rest@) =~= before.push(p@[k as int]@));
        assert(texts(rest@) =~= all.subrange(1, k + 1));
        k = k + 1;
    }
    Some(PutEntry { key, value_rule: unquote_put_value(join(&rest, ":").as_str()) })
}

pub fn parse_put_entries(object: &str) -> (r: Vec<PutEntry>)
    ensures
        put_models(r@) == object_puts(object@),
{
    broadcast use {lemma_array_model, lemma_object_model};

    let mut r: Vec<PutEntry> = Vec::new();
    assert(put_models(r@) =~= seq![]);
    if let Some(Json::Object(m)) = parse_json(object) {
        let ghost all = member_models(m@);
        let mut k: usize = 0;
        while k < m.len()
            invariant
                k <= m.len(),
                all == member_models(m@),
                put_models(r@) == member_puts(all, k as int),
            decreases m.len() - k,
        {
            assert(all[k as int] == (m@[k as int].0@, m@[k as int].1.model()));
            if let Some(t) = scalar_rule(&m[k].1) {
                let ghost before = put_models(r@);
                let e = PutEntry { key: m[k].0.clone(), value_rule: t };
                let ghost x = (e.key@, e.value_rule@);
                r.push(e);
                assert(put_models(r@) =~= before.push(x));
            }
            k = k + 1;
        }
        assert(all.len() == m.len());
        return r;
    }
    let inner = match strip_prefix(object, "{") {
        Some(x) => match strip_suffix(x.as_str(), "}") {
            Some(inner) => inner,
            None => {
                return r;
            },
        },
        None => {
            return r;
        },
    };
    proof {
        reveal_strlit(",");
    }
    let list = [","];
    assert(strs(list@) =~= seq![","@]);
    let parts = split_top_level(inner.as_str(), &list).parts;
    let ghost all = split_result(inner@, seq![","@]);
    let mut k: usize = 0;
    while k < parts.len()
        invariant
            k <= parts.len(),
            all == texts(parts@),
            put_models(r@) == list_puts(all, k as int),
        decreases parts.len() - k,
    {
        assert(all[k as int] == parts@[k as int]@);
        if let Some(e) = parse_pair(parts[k].as_str()) {
            let ghost before = put_models(r@);
            let ghost x = (e.key@, e.value_rule@);
            r.push(e);
            assert(put_models(r@) =~= before.push(x));
        }
        k = k + 1;
    }
    assert(all.len() == parts.len());
    r
}

/// `rule[i..]` without its `@put:{..}` parts.
pub open spec fn without_puts(rule: Seq<char>, i: int) -> Seq<char>
    decreases rule.len() - i,
{
    match find_from(lower_ascii_of(rule), "@put:"@, i) {
        Some(m) => {
            let open = m + 5;
            if !(0 <= i <= m && open <= rule.len()) {
                seq![]
            } else if open < rule.len() && rule[open] == '{' {
                match object_end_from(rule, open + 1, None, false) {
                    Some(e) => if open < e < rule.len() {
                        rule.subrange(i, m) + without_puts(rule, e + 1)
                    } else {
                        seq![]
                    },
                    None => rule.subrange(i, rule.len() as int),
                }
            } else {
                rule.subrange(i, open) + without_puts(rule, open)
            }
        },
        None => rule.subrange(i, rule.len() as int),
    }
}

/// The variables that the `@put:{..}` parts of `rule[i..]` set, in order.
pub open spec fn puts_of(rule: Seq<char>, i: int) -> Seq<(Seq<char>, Seq<char>)>
    decreases rule.len() - i,
{
    match find_from(lower_ascii_of(rule), "@put:"@, i) {
        Some(m) => {
            let open = m + 5;
            if !(0 <= i <= m && open <= rule.len()) {
                seq![]
            } else if open < rule.len() && rule[open] == '{' {
                match object_end_from(rule, open + 1, None, false) {
                    Some(e) => if open < e < rule.len() {
                        object_puts(rule.subrange(open, e + 1)) + puts_of(rule, e + 1)
                    } else {
                        seq![]
                    },
                    None => seq![],
                }
            } else {
                puts_of(rule, open)
            }
        },
        None => seq![],
    }
}

/// Takes the `@put:{..}` parts out of a rule.
pub fn extract_put_entries(rule: &str) -> (r: (String, Vec<PutEntry>))
    ensures
        r.0@ == without_puts(rule@, 0),
        put_models(r.1@) == puts_of(rule@, 0),
{
    let lower = to_ascii_lowercase(rule);
    let low = chars_of(lower.as_str());
    let v = chars_of(rule);
    let mark = chars_of("@put:");
    proof {
        reveal_strlit("@put:");
    }
    let mut out = String::new();
    let mut entries: Vec<PutEntry> = Vec::new();
    let mut i: usize = 0;
    assert(out@ + without_puts(rule@, 0) =~= without_puts(rule@, 0));
    assert(put_models(entries@) + puts_of(rule@, 0) =~= puts_of(rule@, 0));
    loop
        invariant
            v@ == rule@,
            low@ == lower_ascii_of(rule@),
            low.len() == v.len(),
            mark@ == "@put:"@,
            mark.len() == 5,
            i <= v.len(),
            without_puts(rule@, 0) == out@ + without_puts(rule@, i as int),
            puts_of(rule@, 0) == put_models(entries@) + puts_of(rule@, i as int),
        decreases v.len() - i,
    {
        let ghost done = out@;
        let ghost got = put_models(entries@);
        let m = match chars_find(&low, &mark, i) {
            Some(m) => m,
            None => {
                out.append(string_range(&v, i, v.len()).as_str());
                assert(got + puts_of(rule@, i as int) =~= got);
                return (out, entries);
            },
        };
        let open: usize = m + 5;
        if open < v.len() && v[open] == '{' {
            match find_put_object_end(&v, open) {
                Some(e) => {
                    out.append(string_range(&v, i, m).as_str());
                    let mut more = parse_put_entries(string_range(&v, open, e + 1).as_str());
                    let ghost added = put_models(more@);
                    entries.append(&mut more);
                    assert(put_models(entries@) =~= got + added);
                    assert(done + (rule@.subrange(i as int, m as int) + without_puts(rule@, e + 1)) =~= out@
                        + without_puts(rule@, e + 1));
                    assert(got + (added + puts_of(rule@, e + 1)) =~= put_models(entries@) + puts_of(rule@, e + 1));
                    i = e + 1;
                },
                None => {
                    out.append(string_range(&v, i, v.len()).as_str());
                    assert(got + puts_of(rule@, i as int) =~= got);
                    return (out, entries);
                },
            }
        } else {
            out.append(string_range(&v, i, open).as_str());
            assert(done + (rule@.subrange(i as int, open as int) + without_puts(rule@, open as int)) =~= out@
                + without_puts(rule@, open as int));
            i = open;
        }
    }
}

/// A rule without a replacement, and the replacement from its `##` on.
pub open spec fn split_replacement(rule: Seq<char>) -> (Seq<char>, Option<Seq<char>>) {
    match find_of(rule, "##"@) {
        Some(k) => (trim_of(rule.subrange(0, k)), Some(rule.subrange(k, rule.len() as int))),
        None => (trim_of(rule), None),
    }
}

/// `text` with a regular expression replaced everywhere; an expression that
/// cannot be compiled is replaced as plain text.
pub open spec fn all_replaced(text: Seq<char>, pattern: Seq<char>, to: Seq<char>) -> Seq<char> {
    match regex_replaced(pattern, text, to) {
        Some(t) => t,
        None => if pattern.len() == 0 {
            text
        } else {
            replace_of(text, pattern, to)
        },
    }
}

/// The first match, with the expression replaced in it: blank where nothing
/// matches, the replacement itself where the expression cannot be compiled.
pub open spec fn first_replaced(text: Seq<char>, pattern: Seq<char>, to: Seq<char>) -> Seq<char> {
    match regex_matches(pattern, text) {
        Some(m) => if m.found.len() == 0 {
            seq![]
        } else {
            match regex_replaced_first(pattern, group_text(m.found[0].groups, 0), to) {
                Some(t) => t,
                None => to,
            }
        },
        None => to,
    }
}

pub fn apply_regex_replace_all(text: &str, pattern: &str, replacement: &str) -> (r: String)
    ensures
        r@ == all_replaced(text@, pattern@, replacement@),
{
    match replace_matches(pattern, text, replacement) {
        Some(t) => t,
        None => if is_empty_text(pattern) {
            copy(text)
        } else {
            replace(text, pattern, replacement)
        },
    }
}

pub fn apply_regex_replace_first(text: &str, pattern: &str, replacement: &str) -> (r: String)
    ensures
        r@ == first_replaced(text@, pattern@, replacement@),
{
    match find_matches(pattern, text) {
        Some(m) => {
            assert(m.model().found.len() == m.found.len());
            if m.found.len() == 0 {
                let r = String::new();
                assert(r@ =~= seq![]);
                return r;
            }
            assert(m.model().found[0] == m.found@[0].model());
            let found = group_at(&m.found[0].groups, 0);
            match replace_first_match(pattern, found.as_str(), replacement) {
                Some(t) => t,
                None => copy(replacement),
            }
        },
        None => copy(replacement),
    }
}

pub open spec fn part_or_blank(parts: Seq<Seq<char>>, k: int) -> Seq<char> {
    if 0 <= k < parts.len() {
        parts[k]
    } else {
        seq![]
    }
}

/// A text with the steps from `k` on applied: pairs of expression and
/// replacement; a blank expression is passed over alone.
pub open spec fn steps_applied(text: Seq<char>, parts: Seq<Seq<char>>, k: int, first_only: bool) -> Seq<char>
    decreases parts.len() - k + 2,
{
    if k < 0 || k >= parts.len() {
        text
    } else if parts[k].len() == 0 {
        steps_applied(text, parts, k + 1, first_only)
    } else {
        let to = part_or_blank(parts, k + 1);
        let t = if first_only && k + 2 >= parts.len() {
            first_replaced(text, parts[k], to)
        } else {
            all_replaced(text, parts[k], to)
        };
        steps_applied(t, parts, k + 2, first_only)
    }
}

/// A text with the replacements `##expression##replacement..` applied. With
/// `###` at the end, the last one takes the first match alone.
pub open spec fn regex_applied(text: Seq<char>, part: Seq<char>) -> Seq<char> {
    match strip_prefix_of(trim_of(part), "##"@) {
        Some(steps) => {
            let first_only = has_suffix(steps, "###"@);
            let body = if first_only {
                steps.subrange(0, steps.len() - "###"@.len())
            } else {
                steps
            };
            let parts = split_of(body, "##"@);
            if parts[0].len() == 0 {
                text
            } else {
                steps_applied(text, parts, 0, first_only)
            }
        },
        None => text,
    }
}

/// Applies the replacements of a rule to a text.
pub fn apply_legado_regex(text: &str, regex_part: &str) -> (r: String)
    ensures
        r@ == regex_applied(text@, regex_part@),
{
    let part = trim(regex_part);
    let steps = match strip_prefix(part.as_str(), "##") {
        Some(steps) => steps,
        None => {
            return copy(text);
        },
    };
    let (first_only, body) = match strip_suffix(steps.as_str(), "###") {
        Some(body) => (true, body),
        None => (false, steps),
    };
    proof {
        reveal_strlit("##");
    }
    let parts = split(body.as_str(), "##");
    let ghost all = split_of(body@, "##"@);
    assert(all[0] == parts@[0]@);
    if is_empty_text(parts[0].as_str()) {
        return copy(text);
    }
    let mut out = copy(text);
    let mut k: usize = 0;
    while k < parts.len()
        invariant
            k <= parts.len(),
            all == texts(parts@),
            regex_applied(text@, regex_part@) == steps_applied(out@, all, k as int, first_only),
        decreases parts.len() - k,
    {
        assert(all.len() == parts.len());
        assert(all[k as int] == parts@[k as int]@);
        if is_empty_text(parts[k].as_str()) {
            k = k + 1;
        } else {
            let last = parts.len() - k <= 2;
            let to = if parts.len() - k > 1 {
                assert(all[k + 1] == parts@[k + 1]@);
                parts[k + 1].clone()
            } else {
                let b = String::new();
                assert(b@ =~= seq![]);
                b
            };
            out = if first_only && last {
                apply_regex_replace_first(out.as_str(), parts[k].as_str(), to.as_str())
            } else {
                apply_regex_replace_all(out.as_str(), parts[k].as_str(), to.as_str())
            };
            if last {
                assert(steps_applied(out@, all, k + 2, first_only) == out@);
                return out;
            }
            k = k + 2;
        }
    }
    out
}

/// Splits a replacement off a rule.
pub fn split_legado_regex(rule: &str) -> (r: (String, Option<String>))
    ensures
        match find_of(rule@, "##"@) {
            Some(k) => r.0@ == trim_of(rule@.subrange(0, k)) && opt_text(r.1) == Some(
                rule@.subrange(k, rule@.len() as int),
            ),
            None => r.0@ == rule@ && r.1 is None,
        },
{
    match find(rule, "##") {
        Some(k) => {
            let v = chars_of(rule);
            (trim(string_range(&v, 0, k).as_str()), Some(string_range(&v, k, v.len())))
        },
        None => (copy(rule), None),
    }
}

/// The expression, the replacement and the mode of a replacement that has one step.
pub open spec fn replacement_fields(part: Seq<char>) -> Seq<Seq<char>> {
    split_of(without_prefixes(without_suffixes(part, "###"@), "##"@), "##"@)
}

/// The steps of a replacement, without its marks at both ends.
pub open spec fn replacement_steps(part: Seq<char>) -> Seq<char> {
    let s = match strip_prefix_of(part, "##"@) {
        Some(x) => x,
        None => part,
    };
    match strip_suffix_of(s, "###"@) {
        Some(x) => x,
        None => s,
    }
}

/// A text with the replacement of its rule applied.
pub open spec fn replacement_applied(value: Seq<char>, part: Option<Seq<char>>) -> Seq<char> {
    match part {
        Some(p) => if split_of(replacement_steps(p), "##"@).len() <= 2 {
            let fields = replacement_fields(p);
            if has_suffix(p, "###"@) {
                first_replaced(value, fields[0], part_or_blank(fields, 1))
            } else {
                all_replaced(value, fields[0], part_or_blank(fields, 1))
            }
        } else {
            regex_applied(value, p)
        },
        None => value,
    }
}

/// A rule taken apart for evaluation.
pub struct SourceRule {
    pub mode: ParseMode,
    pub rule: String,
    pub replacement_rule: Option<String>,
    pub put_entries: Vec<PutEntry>,
}

impl SourceRule {
    /// Takes the variables to set out of a rule and tells its mode.
    pub fn compile(rule: &str, fallback: ParseMode, content_is_json: bool) -> (r: SourceRule)
        ensures
            (r.mode, r.rule@) == mode_of(without_puts(rule@, 0), fallback, content_is_json),
            put_models(r.put_entries@) == puts_of(rule@, 0),
            r.replacement_rule is None,
    {
        let (without_put, put_entries) = extract_put_entries(rule);
        let (mode, rule) = classify_rule_mode(without_put.as_str(), fallback, content_is_json);
        SourceRule { mode, rule, replacement_rule: None, put_entries }
    }

    /// Puts in the expanded rule, and splits its replacement off.
    pub fn make_up_rule(&mut self, expanded: &str)
        ensures
            (final(self).rule@, opt_text(final(self).replacement_rule)) == split_replacement(expanded@),
            final(self).mode == old(self).mode,
            final(self).put_entries@ == old(self).put_entries@,
    {
        match find(expanded, "##") {
            Some(k) => {
                let v = chars_of(expanded);
                self.rule = trim(string_range(&v, 0, k).as_str());
                self.replacement_rule = Some(string_range(&v, k, v.len()));
            },
            None => {
                self.rule = trim(expanded);
                self.replacement_rule = None;
            },
        }
    }

    /// Applies the replacement of the rule.
    pub fn apply_replacement(&self, value: &str) -> (r: String)
        ensures
            r@ == replacement_applied(value@, opt_text(self.replacement_rule)),
    {
        let part = match &self.replacement_rule {
            Some(p) => p,
            None => {
                return copy(value);
            },
        };
        proof {
            reveal_strlit("##");
        }
        let s = match strip_prefix(part.as_str(), "##") {
            Some(x) => x,
            None => part.clone(),
        };
        let s = match strip_suffix(s.as_str(), "###") {
            Some(x) => x,
            None => s,
        };
        let steps = split(s.as_str(), "##");
        assert(texts(steps@).len() == steps.len());
        if steps.len() <= 2 {
            let body = trim_start_matches(trim_end_matches(part.as_str(), "###").as_str(), "##");
            let fields = split(body.as_str(), "##");
            let ghost all = split_of(body@, "##"@);
            assert(all.len() == fields.len());
            assert(all[0] == fields@[0]@);
            let to = if fields.len() > 1 {
                assert(all[1] == fields@[1]@);
                fields[1].clone()
            } else {
                let b = String::new();
                assert(b@ =~= seq![]);
                b
            };
            return if ends_with(part.as_str(), "###") {
                apply_regex_replace_first(value, fields[0].as_str(), to.as_str())
            } else {
                apply_regex_replace_all(value, fields[0].as_str(), to.as_str())
            };
        }
        apply_legado_regex(value, part.as_str())
    }
}

/// A list rule without its sign, and whether it asks for the reverse order.
pub open spec fn list_rule_of(rule: Seq<char>) -> (Seq<char>, bool) {
    let s = trim_of(rule);
    match strip_prefix_of(s, "-"@) {
        Some(x) => (trim_of(x), true),
        None => match strip_prefix_of(s, "+"@) {
            Some(x) => (trim_of(x), false),
            None => (s, false),
        },
    }
}

pub fn normalize_list_rule(rule: &str) -> (r: (String, bool))
    ensures
        (r.0@, r.1) == list_rule_of(rule@),
{
    let s = trim(rule);
    if let Some(x) = strip_prefix(s.as_str(), "-") {
        return (trim(x.as_str()), true);
    }
    if let Some(x) = strip_prefix(s.as_str(), "+") {
        return (trim(x.as_str()), false);
    }
    (s, false)
}

/// The script between `<js>` and `</js>`, if the rule is nothing else.
pub open spec fn js_block(rule: Seq<char>) -> Option<Seq<char>> {
    match strip_prefix_of(rule, "<js>"@) {
        Some(x) => strip_suffix_of(x, "</js>"@),
        None => None,
    }
}

pub fn strip_js_block(rule: &str) -> (r: Option<String>)
    ensures
        opt_text(r) == js_block(rule@),
{
    match strip_prefix(rule, "<js>") {
        Some(x) => strip_suffix(x.as_str(), "</js>"),
        None => None,
    }
}

/// A rule without the mark of its mode.
pub open spec fn without_mode(raw: Seq<char>) -> Seq<char> {
    let rule = trim_of(raw);
    if js_block(rule) is Some {
        js_block(rule)->0
    } else if has_prefix(rule, "@@"@) {
        rule.subrange("@@"@.len() as int, rule.len() as int)
    } else if has_prefix_ignore_case(rule, "@css:"@) {
        rule.subrange("@css:"@.len() as int, rule.len() as int)
    } else if has_prefix_ignore_case(rule, "@xpath:"@) {
        rule.subrange("@xpath:"@.len() as int, rule.len() as int)
    } else if has_prefix_ignore_case(rule, "@json:"@) {
        rule.subrange("@json:"@.len() as int, rule.len() as int)
    } else if has_prefix_ignore_case(rule, "@regex:"@) {
        rule.subrange("@regex:"@.len() as int, rule.len() as int)
    } else if has_prefix_ignore_case(rule, "@js:"@) {
        rule.subrange("@js:"@.len() as int, rule.len() as int)
    } else if has_prefix_ignore_case(rule, "js:"@) {
        rule.subrange("js:"@.len() as int, rule.len() as int)
    } else {
        rule
    }
}

pub fn strip_mode_prefix(raw: &str) -> (r: String)
    ensures
        r@ == without_mode(raw@),
{
    let rule = trim(raw);
    if let Some(x) = strip_js_block(rule.as_str()) {
        return x;
    }
    if let Some(x) = strip_prefix(rule.as_str(), "@@") {
        return x;
    }
    if let Some(x) = strip_prefix_ascii_case(rule.as_str(), "@css:") {
        return x;
    }
    if let Some(x) = strip_prefix_ascii_case(rule.as_str(), "@xpath:") {
        return x;
    }
    if let Some(x) = strip_prefix_ascii_case(rule.as_str(), "@json:") {
        return x;
    }
    if let Some(x) = strip_prefix_ascii_case(rule.as_str(), "@regex:") {
        return x;
    }
    if let Some(x) = strip_prefix_ascii_case(rule.as_str(), "@js:") {
        return x;
    }
    if let Some(x) = strip_prefix_ascii_case(rule.as_str(), "js:") {
        return x;
    }
    rule
}

/// A script without the marks around it.
pub open spec fn script_of(raw: Seq<char>) -> Seq<char> {
    let rule = trim_of(raw);
    if js_block(rule) is Some {
        js_block(rule)->0
    } else if has_prefix_ignore_case(rule, "@js:"@) {
        rule.subrange("@js:"@.len() as int, rule.len() as int)
    } else if has_prefix_ignore_case(rule, "js:"@) {
        rule.subrange("js:"@.len() as int, rule.len() as int)
    } else {
        rule
    }
}

pub fn strip_js_rule(raw: &str) -> (r: String)
    ensures
        r@ == script_of(raw@),
{
    let rule = trim(raw);
    if let Some(x) = strip_js_block(rule.as_str()) {
        return x;
    }
    if let Some(x) = strip_prefix_ascii_case(rule.as_str(), "@js:") {
        return x;
    }
    if let Some(x) = strip_prefix_ascii_case(rule.as_str(), "js:") {
        return x;
    }
    rule
}

/// The two parts of a rule that ends in a script: `<js>..</js>`, or all after `@js:`.
pub open spec fn js_split(rule: Seq<char>) -> (Seq<char>, Option<Seq<char>>) {
    match (find_of(rule, "<js>"@), rfind_of(rule, "</js>"@)) {
        (Some(a), Some(b)) => if b > a {
            (trim_of(rule.subrange(0, a)), Some(rule.subrange(a + 4, b)))
        } else {
            js_tail(rule)
        },
        _ => js_tail(rule),
    }
}

pub open spec fn js_tail(rule: Seq<char>) -> (Seq<char>, Option<Seq<char>>) {
    match find_ignore_case_from(rule, "@js:"@, 0) {
        Some(k) => (trim_of(rule.subrange(0, k)), Some(rule.subrange(k + 4, rule.len() as int))),
        None => (rule, None),
    }
}

proof fn lemma_js_marks(rule: Seq<char>, a: int, b: int)
    requires
        find_of(rule, "<js>"@) == Some(a),
        rfind_of(rule, "</js>"@) == Some(b),
        b > a,
    ensures
        a + 4 <= b,
{
    reveal_strlit("<js>");
    reveal_strlit("</js>");
    crate::util::chars::lemma_find_from(rule, "<js>"@, 0);
    lemma_rfind_at(rule, "</js>"@, rule.len() - 5);
    assert(rule.subrange(a, a + 4) == "<js>"@);
    assert(rule.subrange(b, b + 5) == "</js>"@);
    assert(rule.subrange(a, a + 4)[0] == '<');
    assert(rule.subrange(a, a + 4)[1] == 'j');
    assert(rule.subrange(a, a + 4)[2] == 's');
    assert(rule.subrange(a, a + 4)[3] == '>');
    assert(rule.subrange(b, b + 5)[0] == '<');
    assert(rule[b] == '<');
    assert(rule[a + 1] == 'j' && rule[a + 2] == 's' && rule[a + 3] == '>');
}

proof fn lemma_rfind_at(s: Seq<char>, p: Seq<char>, i: int)
    ensures
        match crate::util::chars::rfind_from(s, p, i) {
            Some(k) => k <= i && crate::util::chars::occurs_at(s, p, k),
            None => true,
        },
    decreases i + 1,
{
    if i >= 0 && !crate::util::chars::occurs_at(s, p, i) {
        lemma_rfind_at(s, p, i - 1);
    }
}

/// Splits the script off the end of a rule.
pub fn extract_js(rule: &str) -> (r: (String, Option<String>))
    ensures
        (r.0@, opt_text(r.1)) == js_split(rule@),
{
    let v = chars_of(rule);
    if let Some(a) = find(rule, "<js>") {
        if let Some(b) = rfind(rule, "</js>") {
            if b > a {
                proof {
                    lemma_js_marks(rule@, a as int, b as int);
                }
                return (trim(string_range(&v, 0, a).as_str()), Some(string_range(&v, a + 4, b)));
            }
        }
    }
    if let Some(k) = find_ascii_case(rule, "@js:") {
        proof {
            reveal_strlit("@js:");
        }
        let n: usize = v.len();
        return (trim(string_range(&v, 0, k).as_str()), Some(string_range(&v, k + 4, n)));
    }
    (copy(rule), None)
}

/// The key of a rule that only reads a variable, `@get:{key}`.
pub open spec fn get_key(rule: Seq<char>) -> Option<Seq<char>> {
    match strip_prefix_of(trim_of(rule), "@get:{"@) {
        Some(x) => match strip_suffix_of(x, "}"@) {
            Some(k) => Some(trim_of(k)),
            None => None,
        },
        None => None,
    }
}

pub fn direct_get_key(rule: &str) -> (r: Option<String>)
    ensures
        opt_text(r) == get_key(rule@),
{
    match strip_prefix(trim(rule).as_str(), "@get:{") {
        Some(x) => match strip_suffix(x.as_str(), "}") {
            Some(k) => Some(trim(k.as_str())),
            None => None,
        },
        None => None,
    }
}

pub open spec fn has_letter(s: Seq<char>) -> bool {
    exists|i: int| 0 <= i < s.len() && alphabetic(#[trigger] s[i])
}

/// Whether a text starts with a tag.
pub open spec fn is_fragment(value: Seq<char>) -> bool {
    let v = trim_of(value);
    has_prefix(v, "<"@) && match find_of(v, ">"@) {
        Some(e) => e > 1 && has_letter(v.subrange(1, e)),
        None => false,
    }
}

pub fn looks_like_html_fragment(value: &str) -> (r: bool)
    ensures
        r == is_fragment(value@),
{
    let t = trim(value);
    if !starts_with(t.as_str(), "<") {
        return false;
    }
    let e = match find(t.as_str(), ">") {
        Some(e) => e,
        None => {
            return false;
        },
    };
    if e <= 1 {
        return false;
    }
    let v = chars_of(t.as_str());
    let ghost s = v@.subrange(1, e as int);
    assert(is_fragment(value@) == has_letter(s));
    let mut i: usize = 1;
    while i < e
        invariant
            1 <= i <= e <= v.len(),
            s == v@.subrange(1, e as int),
            is_fragment(value@) == has_letter(s),
            forall|k: int| 0 <= k < i - 1 ==> !alphabetic(#[trigger] s[k]),
        decreases e - i,
    {
        assert(s[i - 1] == v@[i as int]);
        if is_alphabetic(v[i]) {
            return true;
        }
        i = i + 1;
    }
    false
}

/// Whether a value counts as set: not blank, and none of the words for no.
pub open spec fn truthy(value: Seq<char>) -> bool {
    let v = lower_ascii_of(trim_of(value));
    v.len() > 0 && !(v == "0"@ || v == "false"@ || v == "null"@ || v == "none"@ || v == "no"@ || v == "not"@ || v
        == "off"@)
}

pub fn is_truthy(value: &str) -> (r: bool)
    ensures
        r == truthy(value@),
{
    let t = to_ascii_lowercase(trim(value).as_str());
    let s = t.as_str();
    !(is_empty_text(s) || same(s, "0") || same(s, "false") || same(s, "null") || same(s, "none") || same(s, "no") || same(
        s,
        "not",
    ) || same(s, "off"))
}

/// The address of a chapter: resolved where the rule gives one; a volume's is
/// its title and number, any other chapter's the page's own.
pub open spec fn chapter_url(base: Seq<char>, raw: Seq<char>, title: Seq<char>, volume: bool, index: int) -> Seq<char> {
    if trim_of(raw).len() > 0 {
        resolved_url(base, raw)
    } else if volume {
        title + decimal_of(index)
    } else {
        base
    }
}

pub fn finalize_chapter_url(base: &str, raw: &str, title: &str, volume: bool, index: usize) -> (r: String)
    ensures
        r@ == chapter_url(base@, raw@, title@, volume, index as int),
{
    if !is_empty_text(trim(raw).as_str()) {
        return resolve_url(base, raw);
    }
    if volume {
        return concat(title, decimal(index as u64).as_str());
    }
    copy(base)
}

/// The value that a JSON rule picks: by a path from the root, else the member
/// of that name.
pub open spec fn json_field(v: JsonV, rule: Seq<char>) -> Option<Seq<char>> {
    if has_prefix(trim_start_of(rule), "$"@) {
        first_string_of(v, rule)
    } else {
        match crate::ext::json::member_of(v, rule) {
            Some(x) => value_text(x),
            None => None,
        }
    }
}

pub fn pick_json_field(v: &Json, rule: &str) -> (r: Option<String>)
    ensures
        opt_text(r) == json_field(v.model(), rule@),
{
    if starts_with(trim_start(rule).as_str(), "$") {
        return jsonpath_first_string(v, rule);
    }
    match v.get(rule) {
        Some(x) => value_to_string(x),
        None => None,
    }
}

/// The items that a script hands back as JSON: those of an array, or one object.
pub open spec fn output_items(output: Seq<char>) -> Option<Seq<JsonV>> {
    match json_of(trim_of(output)) {
        Some(JsonV::Array(items)) => Some(items),
        Some(JsonV::Object(m)) => Some(seq![JsonV::Object(m)]),
        _ => None,
    }
}

pub fn parse_js_output_items(output: &str) -> (r: Option<Vec<Json>>)
    ensures
        match r {
            Some(v) => output_items(output@) == Some(json_models(v@)),
            None => output_items(output@) is None,
        },
{
    broadcast use {lemma_array_model, lemma_object_model};

    match parse_json(trim(output).as_str()) {
        Some(Json::Array(items)) => Some(items),
        Some(Json::Object(m)) => {
            let mut v: Vec<Json> = Vec::new();
            let ghost x = member_models(m@);
            v.push(Json::Object(m));
            assert(json_models(v@) =~= seq![JsonV::Object(x)]);
            Some(v)
        },
        _ => None,
    }
}

/// Whether a source tells book pages by a pattern.
pub open spec fn pattern_set(pattern: Option<Seq<char>>) -> bool {
    match pattern {
        Some(p) => trim_of(p).len() > 0 && lower_ascii_of(trim_of(p)) != lower_ascii_of("NONE"@),
        None => false,
    }
}

pub fn has_book_url_pattern(pattern: &Option<String>) -> (r: bool)
    ensures
        r == pattern_set(opt_text(*pattern)),
{
    match pattern {
        Some(p) => {
            let t = trim(p.as_str());
            !is_empty_text(t.as_str()) && !eq_ignore_ascii_case(t.as_str(), "NONE")
        },
        None => false,
    }
}

/// Whether a page's address matches the source's pattern as a whole.
pub open spec fn pattern_matches(pattern: Option<Seq<char>>, url: Seq<char>) -> bool {
    pattern_set(pattern) && match regex_matches("\\A(?:"@ + trim_of(pattern->0) + ")\\z"@, url) {
        Some(m) => m.found.len() > 0,
        None => false,
    }
}

pub fn book_url_pattern_matches(pattern: &Option<String>, url: &str) -> (r: bool)
    ensures
        r == pattern_matches(opt_text(*pattern), url@),
{
    if !has_book_url_pattern(pattern) {
        return false;
    }
    match pattern {
        Some(p) => {
            let anchored = concat3("\\A(?:", trim(p.as_str()).as_str(), ")\\z");
            match find_matches(anchored.as_str(), url) {
                Some(m) => {
                    assert(m.model().found.len() == m.found.len());
                    m.found.len() > 0
                },
                None => false,
            }
        },
        None => false,
    }
}

/// What two addresses of one page have in common: the address without its fragment.
pub open spec fn url_identity(url: Seq<char>) -> Seq<char> {
    let n = normalized_url(url);
    match url_plain(n) {
        Some(u) => u,
        None => n,
    }
}

pub fn normalized_url_identity(url: &str) -> (r: String)
    ensures
        r@ == url_identity(url@),
{
    let n = normalize_source_url(url);
    match url_without_fragment(n.as_str()) {
        Some(u) => u,
        None => n,
    }
}

pub open spec fn identities(urls: Seq<Seq<char>>) -> Seq<Seq<char>> {
    Seq::new(urls.len(), |i: int| url_identity(urls[i]))
}

/// The pages that the first `n` addresses lead to from a page: resolved, each
/// page once, and not the page itself.
pub open spec fn next_pages(base: Seq<char>, urls: Seq<Seq<char>>, n: int) -> Seq<Seq<char>>
    decreases n,
{
    if n <= 0 {
        seq![]
    } else {
        let before = next_pages(base, urls, n - 1);
        let t = trim_of(urls[n - 1]);
        let u = resolved_url(base, t);
        if t.len() == 0 || url_identity(u) == url_identity(base) || identities(before).contains(url_identity(u)) {
            before
        } else {
            before.push(u)
        }
    }
}

/// Resolves the addresses of further pages; blank ones, the page itself and
/// pages that are there already are dropped.
pub fn normalize_toc_next_urls(base_url: &str, urls: &Vec<String>) -> (r: Vec<String>)
    ensures
        texts(r@) == next_pages(base_url@, texts(urls@), urls.len() as int),
{
    let current = normalized_url_identity(base_url);
    let mut seen: Vec<String> = Vec::new();
    let mut r: Vec<String> = Vec::new();
    let mut k: usize = 0;
    assert(texts(r@) =~= seq![]);
    assert(texts(seen@) =~= identities(texts(r@)));
    while k < urls.len()
        invariant
            k <= urls.len(),
            current@ == url_identity(base_url@),
            texts(seen@) == identities(texts(r@)),
            texts(r@) == next_pages(base_url@, texts(urls@), k as int),
        decreases urls.len() - k,
    {
        assert(texts(urls@)[k as int] == urls@[k as int]@);
        let t = trim(urls[k].as_str());
        if !is_empty_text(t.as_str()) {
            let u = resolve_url(base_url, t.as_str());
            let id = normalized_url_identity(u.as_str());
            if !same(id.as_str(), current.as_str()) && !list_contains(&seen, id.as_str()) {
                let ghost before = texts(r@);
                let ghost before2 = texts(seen@);
                let ghost x = u@;
                let ghost y = id@;
                r.push(u);
                seen.push(id);
                assert(texts(r@) =~= before.push(x));
                assert(texts(seen@) =~= before2.push(y));
                assert(texts(seen@) =~= identities(texts(r@)));
            }
        }
        k = k + 1;
    }
    r
}

/// No page is listed twice among the further pages, and the page itself is not
/// among them.
pub proof fn law_next_pages_distinct(base: Seq<char>, urls: Seq<Seq<char>>, n: int)
    ensures
        forall|i: int, j: int|
            #![trigger next_pages(base, urls, n)[i], next_pages(base, urls, n)[j]]
            0 <= i < j < next_pages(base, urls, n).len() ==> url_identity(next_pages(base, urls, n)[i])
                != url_identity(next_pages(base, urls, n)[j]),
        forall|i: int|
            0 <= i < next_pages(base, urls, n).len() ==> url_identity(#[trigger] next_pages(base, urls, n)[i])
                != url_identity(base),
    decreases n,
{
    if n > 0 {
        law_next_pages_distinct(base, urls, n - 1);
        let before = next_pages(base, urls, n - 1);
        let u = resolved_url(base, trim_of(urls[n - 1]));
        assert forall|i: int| 0 <= i < before.len() && !identities(before).contains(url_identity(u)) implies url_identity(
            #[trigger] before[i],
        ) != url_identity(u) by {
            assert(identities(before)[i] == url_identity(before[i]));
        }
    }
}

/// What a placeholder `$n` of a rule stands for: the group of that number, if
/// the match has it; `$0` and unknown groups stay as they are.
pub open spec fn placeholder_text(groups: Seq<Option<Seq<char>>>, row: Seq<Option<Seq<char>>>) -> Seq<char> {
    match within(unsigned_of(group_text(groups, 1)), 0, u64::MAX as int) {
        Some(n) => if 0 < n < row.len() && row[n] is Some {
            row[n]->0
        } else {
            group_text(groups, 0)
        },
        None => group_text(groups, 0),
    }
}

pub open spec fn placeholder_texts(found: Seq<FoundV>, row: Seq<Option<Seq<char>>>) -> Seq<Seq<char>> {
    Seq::new(found.len(), |i: int| placeholder_text(found[i].groups, row))
}

/// A rule with its placeholders filled from a match.
pub open spec fn filled_rule(rule: Seq<char>, row: Seq<Option<Seq<char>>>) -> Seq<char> {
    match regex_matches("\\$(\\d{1,2})"@, rule) {
        Some(m) => placeholders_filled(m, row),
        None => rule,
    }
}

/// A rule with the placeholders that were found in it filled from a match.
pub open spec fn placeholders_filled(m: MatchesV, row: Seq<Option<Seq<char>>>) -> Seq<char> {
    assembled(m, placeholder_texts(m.found, row), m.found.len() as int) + m.tail
}

/// The value that a rule takes from a match, if it is not blank.
pub open spec fn row_value(rule: Seq<char>, row: Seq<Option<Seq<char>>>) -> Option<Seq<char>> {
    let r = trim_of(rule);
    if r.len() == 0 {
        None
    } else {
        let f = filled_rule(r, row);
        let out = match find_of(f, "##"@) {
            Some(k) => regex_applied(trim_of(f.subrange(0, k)), f.subrange(k, f.len() as int)),
            None => f,
        };
        if out.len() == 0 {
            None
        } else {
            Some(out)
        }
    }
}

pub fn fill_placeholder(groups: &Vec<Option<String>>, row: &Vec<Option<String>>) -> (r: String)
    ensures
        r@ == placeholder_text(opt_texts(groups@), opt_texts(row@)),
{
    let digits = group_at(groups, 1);
    let max: u64 = 18446744073709551615;
    if let Some(n) = parse_unsigned(digits.as_str(), max) {
        if 0 < n && n < row.len() as u64 {
            assert(opt_texts(row@)[n as int] == opt_text(row@[n as int]));
            if let Some(t) = &row[n as usize] {
                return t.clone();
            }
        }
    }
    group_at(groups, 0)
}

pub fn fill_rule(rule: &str, row: &Vec<Option<String>>) -> (r: String)
    ensures
        r@ == filled_rule(rule@, opt_texts(row@)),
{
    match find_matches("\\$(\\d{1,2})", rule) {
        Some(m) => fill_placeholders(&m, row),
        None => copy(rule),
    }
}

/// Fills the placeholders that were found in a rule from a match.
pub fn fill_placeholders(m: &Matches, row: &Vec<Option<String>>) -> (r: String)
    ensures
        r@ == placeholders_filled(m.model(), opt_texts(row@)),
{
    let ghost all = found_models(m.found@);
    let ghost want = placeholder_texts(all, opt_texts(row@));
    let mut parts: Vec<String> = Vec::new();
    let mut i: usize = 0;
    while i < m.found.len()
        invariant
            i <= m.found.len(),
            all == found_models(m.found@),
            want == placeholder_texts(all, opt_texts(row@)),
            texts(parts@) =~= want.take(i as int),
        decreases m.found.len() - i,
    {
        assert(all[i as int] == m.found@[i as int].model());
        let ghost before = texts(parts@);
        let t = fill_placeholder(&m.found[i].groups, row);
        let ghost x = t@;
        parts.push(t);
        assert(texts(parts@) =~= before.push(x));
        i = i + 1;
    }
    assert(want.take(all.len() as int) =~= want);
    assert(parts.len() == texts(parts@).len());
    assemble(m, &parts)
}

/// The value that a rule takes from a match; `$n` stands for a group, and a
/// replacement may follow `##`.
pub fn capture_rule_values(rule: &str, row: &Vec<Option<String>>) -> (r: Option<String>)
    ensures
        opt_text(r) == row_value(rule@, opt_texts(row@)),
{
    let t = trim(rule);
    if is_empty_text(t.as_str()) {
        return None;
    }
    let filled = fill_rule(t.as_str(), row);
    let (pure, part) = split_legado_regex(filled.as_str());
    let out = match part {
        Some(p) => apply_legado_regex(pure.as_str(), p.as_str()),
        None => pure,
    };
    if is_empty_text(out.as_str()) {
        None
    } else {
        Some(out)
    }
}

/// The expression of one stage of a regular-expression rule.
pub open spec fn stage_pattern(part: Seq<char>) -> Seq<char> {
    let p = trim_of(trim_start_char(trim_of(part), ':'));
    trim_of(
        match strip_prefix_ignore_case_of(p, "@regex:"@) {
            Some(x) => x,
            None => p,
        },
    )
}

pub fn stage_expression(part: &str) -> (r: String)
    ensures
        r@ == stage_pattern(part@),
{
    let p = trim(trim_start_of_char(trim(part).as_str(), ':').as_str());
    match strip_prefix_ascii_case(p.as_str(), "@regex:") {
        Some(x) => trim(x.as_str()),
        None => trim(p.as_str()),
    }
}

/// The groups of every match.
pub open spec fn match_rows(m: MatchesV) -> Seq<Seq<Option<Seq<char>>>> {
    Seq::new(m.found.len(), |i: int| m.found[i].groups)
}

/// The rows of the first `n` inputs, one after the other; `None` for a bad expression.
pub open spec fn rows_in(pattern: Seq<char>, inputs: Seq<Seq<char>>, n: int) -> Option<Seq<Seq<Option<Seq<char>>>>>
    decreases n,
{
    if n <= 0 {
        Some(seq![])
    } else {
        match (rows_in(pattern, inputs, n - 1), regex_matches(pattern, inputs[n - 1])) {
            (Some(rows), Some(m)) => Some(rows + match_rows(m)),
            _ => None,
        }
    }
}

pub open spec fn whole_texts(rows: Seq<Seq<Option<Seq<char>>>>) -> Seq<Seq<char>> {
    Seq::new(rows.len(), |i: int| group_text(rows[i], 0))
}

/// The rows that the stages from `k` on give: each stage but the last narrows
/// the inputs to its matches, the last gives the groups.
pub open spec fn stage_rows(parts: Seq<Seq<char>>, k: int, inputs: Seq<Seq<char>>) -> Seq<Seq<Option<Seq<char>>>>
    decreases parts.len() - k,
{
    if k < 0 || k >= parts.len() {
        seq![]
    } else {
        match rows_in(stage_pattern(parts[k]), inputs, inputs.len() as int) {
            Some(rows) => if k + 1 == parts.len() {
                rows
            } else {
                stage_rows(parts, k + 1, whole_texts(rows))
            },
            None => seq![],
        }
    }
}

/// The rows of groups that a regular-expression rule gives for an input; its
/// stages are joined by `&&`.
pub open spec fn capture_rows(rule: Seq<char>, input: Seq<char>) -> Seq<Seq<Option<Seq<char>>>> {
    stage_rows(split_result(rule, seq!["&&"@]), 0, seq![input])
}

proof fn lemma_rows_none(pattern: Seq<char>, inputs: Seq<Seq<char>>, k: int, n: int)
    requires
        k <= n,
        rows_in(pattern, inputs, k) is None,
    ensures
        rows_in(pattern, inputs, n) is None,
    decreases n - k,
{
    if k < n {
        lemma_rows_none(pattern, inputs, k, n - 1);
    }
}

pub fn collect_rows(pattern: &str, inputs: &Vec<String>) -> (r: Option<Vec<Vec<Option<String>>>>)
    ensures
        crate::ext::regexes::opt_rows(r) == rows_in(pattern@, texts(inputs@), inputs.len() as int),
{
    let mut rows: Vec<Vec<Option<String>>> = Vec::new();
    let mut k: usize = 0;
    assert(crate::ext::regexes::group_rows(rows@) =~= seq![]);
    while k < inputs.len()
        invariant
            k <= inputs.len(),
            rows_in(pattern@, texts(inputs@), k as int) == Some(crate::ext::regexes::group_rows(rows@)),
        decreases inputs.len() - k,
    {
        assert(texts(inputs@)[k as int] == inputs@[k as int]@);
        match find_matches(pattern, inputs[k].as_str()) {
            Some(m) => {
                let ghost base = crate::ext::regexes::group_rows(rows@);
                let ghost all = m.model();
                let mut found = m.found;
                let ghost given = found@;
                let total: usize = found.len();
                let mut j: usize = 0;
                while j < total
                    invariant
                        j <= total,
                        total == given.len(),
                        found_models(given) == all.found,
                        found@ == given.subrange(j as int, total as int),
                        crate::ext::regexes::group_rows(rows@) =~= base + match_rows(all).take(j as int),
                    decreases total - j,
                {
                    let ghost before = crate::ext::regexes::group_rows(rows@);
                    let f = found.remove(0);
                    assert(f == given[j as int]);
                    assert(all.found[j as int] == given[j as int].model());
                    let ghost x = opt_texts(f.groups@);
                    rows.push(f.groups);
                    assert(crate::ext::regexes::group_rows(rows@) =~= before.push(x));
                    assert(x == match_rows(all)[j as int]);
                    assert(found@ =~= given.subrange(j + 1, total as int));
                    j = j + 1;
                }
                assert(match_rows(all).take(total as int) =~= match_rows(all));
                assert(crate::ext::regexes::group_rows(rows@) =~= base + match_rows(all));
            },
            None => {
                proof {
                    lemma_rows_none(pattern@, texts(inputs@), k + 1, inputs.len() as int);
                }
                return None;
            },
        }
        k = k + 1;
    }
    Some(rows)
}

pub fn row_texts(rows: &Vec<Vec<Option<String>>>) -> (r: Vec<String>)
    ensures
        texts(r@) == whole_texts(crate::ext::regexes::group_rows(rows@)),
{
    let mut r: Vec<String> = Vec::new();
    let mut k: usize = 0;
    let ghost want = whole_texts(crate::ext::regexes::group_rows(rows@));
    while k < rows.len()
        invariant
            k <= rows.len(),
            want == whole_texts(crate::ext::regexes::group_rows(rows@)),
            texts(r@) =~= want.take(k as int),
        decreases rows.len() - k,
    {
        assert(crate::ext::regexes::group_rows(rows@)[k as int] == opt_texts(rows@[k as int]@));
        let ghost before = texts(r@);
        let t = group_at(&rows[k], 0);
        let ghost x = t@;
        r.push(t);
        assert(texts(r@) =~= before.push(x));
        k = k + 1;
    }
    assert(want.take(want.len() as int) =~= want);
    r
}

/// The rows of groups that a regular-expression rule gives for an input.
pub fn regex_capture_rows(rule: &str, input: &str) -> (r: Vec<Vec<Option<String>>>)
    ensures
        crate::ext::regexes::group_rows(r@) == capture_rows(rule@, input@),
{
    proof {
        reveal_strlit("&&");
        lemma_parts_nonempty(rule@, seq!["&&"@]);
    }
    let list = ["&&"];
    assert(strs(list@) =~= seq!["&&"@]);
    let parts = split_top_level(rule, &list).parts;
    let ghost all = split_result(rule@, seq!["&&"@]);
    let mut inputs: Vec<String> = Vec::new();
    inputs.push(copy(input));
    assert(texts(inputs@) =~= seq![input@]);
    let mut k: usize = 0;
    while k < parts.len()
        invariant
            k <= parts.len(),
            all == texts(parts@),
            capture_rows(rule@, input@) == stage_rows(all, k as int, texts(inputs@)),
        decreases parts.len() - k,
    {
        assert(all.len() == parts.len());
        assert(all[k as int] == parts@[k as int]@);
        assert(texts(inputs@).len() == inputs.len());
        let pattern = stage_expression(parts[k].as_str());
        match collect_rows(pattern.as_str(), &inputs) {
            Some(rows) => {
                if k + 1 == parts.len() {
                    return rows;
                }
                inputs = row_texts(&rows);
            },
            None => {
                let r: Vec<Vec<Option<String>>> = Vec::new();
                assert(crate::ext::regexes::group_rows(r@) =~= seq![]);
                return r;
            },
        }
        k = k + 1;
    }
    let r: Vec<Vec<Option<String>>> = Vec::new();
    assert(crate::ext::regexes::group_rows(r@) =~= seq![]);
    r
}

/// The first value of rows: the first group, or the whole match where there is
/// no group; blank where the group took no part.
pub open spec fn first_row_value(rows: Seq<Seq<Option<Seq<char>>>>) -> Seq<char> {
    if rows.len() == 0 {
        seq![]
    } else if rows[0].len() > 1 {
        group_text(rows[0], 1)
    } else {
        group_text(rows[0], 0)
    }
}

pub fn first_capture(rows: &Vec<Vec<Option<String>>>) -> (r: String)
    ensures
        r@ == first_row_value(crate::ext::regexes::group_rows(rows@)),
{
    if rows.len() == 0 {
        let r = String::new();
        assert(r@ =~= seq![]);
        return r;
    }
    assert(crate::ext::regexes::group_rows(rows@)[0] == opt_texts(rows@[0]@));
    if rows[0].len() > 1 {
        group_at(&rows[0], 1)
    } else {
        group_at(&rows[0], 0)
    }
}

/// The values of all rows that have one: the first group, or the whole match.
pub open spec fn row_values(rows: Seq<Seq<Option<Seq<char>>>>, n: int) -> Seq<Seq<char>>
    decreases n,
{
    if n <= 0 {
        seq![]
    } else {
        let row = rows[n - 1];
        let v = if row.len() > 1 {
            row[1]
        } else if row.len() > 0 {
            row[0]
        } else {
            None
        };
        match v {
            Some(t) => row_values(rows, n - 1).push(t),
            None => row_values(rows, n - 1),
        }
    }
}

pub fn all_captures(rows: &Vec<Vec<Option<String>>>) -> (r: Vec<String>)
    ensures
        texts(r@) == row_values(crate::ext::regexes::group_rows(rows@), rows.len() as int),
{
    let mut r: Vec<String> = Vec::new();
    let mut k: usize = 0;
    assert(texts(r@) =~= seq![]);
    while k < rows.len()
        invariant
            k <= rows.len(),
            texts(r@) == row_values(crate::ext::regexes::group_rows(rows@), k as int),
        decreases rows.len() - k,
    {
        let row = &rows[k];
        assert(crate::ext::regexes::group_rows(rows@)[k as int] == opt_texts(row@));
        let ghost before = texts(r@);
        if row.len() > 1 {
            assert(opt_texts(row@)[1] == opt_text(row@[1]));
            if let Some(t) = &row[1] {
                r.push(t.clone());
                assert(texts(r@) =~= before.push(t@));
            }
        } else if row.len() > 0 {
            assert(opt_texts(row@)[0] == opt_text(row@[0]));
            if let Some(t) = &row[0] {
                r.push(t.clone());
                assert(texts(r@) =~= before.push(t@));
            }
        }
        k = k + 1;
    }
    r
}

} // verus!
