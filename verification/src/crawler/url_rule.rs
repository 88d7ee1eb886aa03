//! URL rules: scripts, templates, page choices, options and headers, compiled
//! to a request.

use crate::crawler::sessions::session_header;
use crate::ext::codec::{encode_text, encoded_as, encoding_for_label, encoding_of};
use crate::ext::json::{
    json_of, json_read, json_text_of, json_to_text, lemma_array_model, lemma_object_model, member_models, member_of,
    parse_json, read_json, Json, JsonV,
};
use crate::ext::regexes::{
    assemble, assembled, find_matches, found_models, opt_texts, regex_matches, FoundV, Matches, MatchesV,
};
use crate::ext::urls::{join_url, parse_url, percent_decode, percent_decoded, percent_encode, url_joined, url_read};
use crate::ext::xml::pairs;
use crate::model::book_source::BookSource;
use crate::parser::field::{or_blank, text_or_blank};
use crate::parser::js::{called, eval_js, eval_js_url, eval_js_url_template, page_call, url_call};
use crate::parser::markup::{group_at, group_text};
use crate::parser::rule_engine::{lib_restored, with_lib};
use crate::parser::script::{
    agrees, group_log, lemma_offline_on, offline, result_text, Host, Oracle, ScriptEngine, World,
};
use crate::util::bytes::{
    escape_component, escape_of, form_encode_bytes, form_of, hex_word, percent_encode_bytes, percent_of, push_hex_word,
};
use crate::util::chars::{
    chars_find, chars_of, chars_space_end, concat, concat3, contains, contains_text, copy, decimal, decimal_of,
    digits_of, eq_ignore_ascii_case, find, find_from, find_of, has_prefix, is_ascii_letter, is_ascii_letter_char,
    is_control, is_control_char, is_digit, is_digit_char, is_empty_text, is_hex_digit, join, join_of, lower_ascii_of,
    opt_str, opt_text, parse_unsigned, replace, replace_of, same, space_end, split, split_of, split_once,
    split_once_of, starts_with, string_range, strip_prefix, strip_prefix_of, strip_suffix, strip_suffix_of, texts,
    trim, trim_end_matches, trim_of, trim_quotes, trim_start, trim_start_matches, trim_start_of, unsigned_of, within,
    without_prefixes, without_quotes, without_suffixes,
};
use vstd::prelude::*;
use vstd::string::*;
use vstd::utf8::encode_utf8;

verus! {

/// What a request does.
#[derive(Debug, Clone, Copy, PartialEq, Eq, Structural)]
pub enum Method {
    Get,
    Post,
    Head,
    Put,
    Delete,
    Connect,
    Options,
    Trace,
    Patch,
}

/// A request, ready to be sent.
#[derive(Debug)]
pub struct RequestSpec {
    pub url: String,
    pub method: Method,
    pub headers: Vec<(String, String)>,
    pub body: Option<String>,
    pub charset: Option<String>,
    pub retry: usize,
    pub proxy: Option<String>,
    pub response_type: Option<String>,
}

pub struct RequestV {
    pub url: Seq<char>,
    pub method: Method,
    pub headers: Seq<(Seq<char>, Seq<char>)>,
    pub body: Option<Seq<char>>,
    pub charset: Option<Seq<char>>,
    pub retry: int,
    pub proxy: Option<Seq<char>>,
    pub response_type: Option<Seq<char>>,
}

impl RequestSpec {
    pub open spec fn model(self) -> RequestV {
        RequestV {
            url: self.url@,
            method: self.method,
            headers: pairs(self.headers@),
            body: opt_text(self.body),
            charset: opt_text(self.charset),
            retry: self.retry as int,
            proxy: opt_text(self.proxy),
            response_type: opt_text(self.response_type),
        }
    }
}

pub open spec fn default_user_agent() -> Seq<char> {
    "Mozilla/5.0 (Windows NT 10.0; Win64; x64) AppleWebKit/537.36 (KHTML, like Gecko) Chrome/120.0.0.0 Safari/537.36"@
}

/// Whether two header names are the same, up to case.
pub open spec fn same_name(a: Seq<char>, b: Seq<char>) -> bool {
    lower_ascii_of(a) == lower_ascii_of(b)
}

/// What a scan of a URL rule remembers.
pub struct OptionScan {
    pub quote: Option<char>,
    pub escaped: bool,
    pub depth: int,
}

pub open spec fn option_step(p: OptionScan, c: char) -> OptionScan {
    if p.escaped {
        OptionScan { escaped: false, ..p }
    } else {
        match p.quote {
            Some(q) => if c == '\\' {
                OptionScan { escaped: true, ..p }
            } else if c == q {
                OptionScan { quote: None, ..p }
            } else {
                p
            },
            None => if c == '"' || c == '\'' {
                OptionScan { quote: Some(c), ..p }
            } else if c == '{' || c == '[' {
                OptionScan { depth: p.depth + 1, ..p }
            } else if c == '}' || c == ']' {
                OptionScan { depth: p.depth - 1, ..p }
            } else {
                p
            },
        }
    }
}

/// Whether the character at `i`, read in state `p`, is a comma at top level
/// with a brace after it.
pub open spec fn option_comma(s: Seq<char>, i: int, p: OptionScan) -> bool {
    &&& !p.escaped
    &&& p.quote is None
    &&& p.depth == 0
    &&& s[i] == ','
    &&& space_end(s, i + 1) < s.len()
    &&& s[space_end(s, i + 1)] == '{'
}

/// The position of the comma before the options, from `i` on.
pub open spec fn option_comma_from(s: Seq<char>, i: int, p: OptionScan) -> Option<int>
    decreases s.len() - i,
{
    if i < 0 || i >= s.len() {
        None
    } else if option_comma(s, i, p) {
        Some(i)
    } else {
        option_comma_from(s, i + 1, option_step(p, s[i]))
    }
}

/// A URL rule split before its options: the address, and the JSON object that
/// follows a top-level comma.
pub open spec fn options_split(rule: Seq<char>) -> (Seq<char>, Option<Seq<char>>) {
    match option_comma_from(rule, 0, OptionScan { quote: None, escaped: false, depth: 0 }) {
        Some(k) => (rule.subrange(0, k), Some(rule.subrange(space_end(rule, k + 1), rule.len() as int))),
        None => (rule, None),
    }
}

/// Splits the options off a URL rule.
pub fn split_url_options(rule: &str) -> (r: (String, Option<String>))
    ensures
        (r.0@, opt_text(r.1)) == options_split(rule@),
{
    let v = chars_of(rule);
    let mut quote: Option<char> = None;
    let mut escaped = false;
    let mut depth: i128 = 0;
    let mut i: usize = 0;
    while i < v.len()
        invariant
            v@ == rule@,
            i <= v.len(),
            -(i as int) <= depth <= i,
            option_comma_from(rule@, 0, OptionScan { quote: None, escaped: false, depth: 0 }) == option_comma_from(
                rule@,
                i as int,
                OptionScan { quote, escaped, depth: depth as int },
            ),
        decreases v.len() - i,
    {
        let c = v[i];
        if escaped {
            escaped = false;
        } else if let Some(q) = quote {
            if c == '\\' {
                escaped = true;
            } else if c == q {
                quote = None;
            }
        } else if c == '"' || c == '\'' {
            quote = Some(c);
        } else if c == '{' || c == '[' {
            depth = depth + 1;
        } else if c == '}' || c == ']' {
            depth = depth - 1;
        } else if c == ',' && depth == 0 {
            let k = chars_space_end(&v, i + 1);
            if k < v.len() && v[k] == '{' {
                return (string_range(&v, 0, i), Some(string_range(&v, k, v.len())));
            }
        }
        i = i + 1;
    }
    (copy(rule), None)
}

/// A text between quotes with its control characters escaped; what stands
/// outside quotes stays.
pub open spec fn control_escaped(c: char) -> Seq<char> {
    if c == '\n' {
        "\\n"@
    } else if c == '\r' {
        "\\r"@
    } else if c == '\t' {
        "\\t"@
    } else if is_control(c) {
        seq!['\\', 'u'] + hex_word(crate::util::chars::code_of(c))
    } else {
        seq![c]
    }
}

/// Whether a pass over JSON text is in a string, and after a backslash.
pub struct StringScan {
    pub inside: bool,
    pub escaped: bool,
}

pub open spec fn string_step(p: StringScan, c: char) -> StringScan {
    if p.inside {
        if p.escaped {
            StringScan { escaped: false, ..p }
        } else if c == '\\' {
            StringScan { escaped: true, ..p }
        } else if c == '"' {
            StringScan { inside: false, escaped: false }
        } else {
            p
        }
    } else {
        StringScan { inside: c == '"', escaped: false }
    }
}

pub open spec fn string_scan(s: Seq<char>, n: int) -> StringScan
    decreases n,
{
    if n <= 0 {
        StringScan { inside: false, escaped: false }
    } else {
        string_step(string_scan(s, n - 1), s[n - 1])
    }
}

/// The first `n` characters of JSON text with the control characters in its
/// strings escaped.
pub open spec fn controls_escaped(s: Seq<char>, n: int) -> Seq<char>
    decreases n,
{
    if n <= 0 {
        seq![]
    } else {
        let p = string_scan(s, n - 1);
        let c = s[n - 1];
        controls_escaped(s, n - 1) + (if p.inside && !p.escaped && c != '\\' && c != '"' {
            control_escaped(c)
        } else {
            seq![c]
        })
    }
}

/// Escapes the control characters in the strings of JSON text.
pub fn escape_control_chars_in_json_strings(raw: &str) -> (r: String)
    ensures
        r@ == controls_escaped(raw@, raw@.len() as int),
{
    let v = chars_of(raw);
    let mut out = String::new();
    let mut inside = false;
    let mut escaped = false;
    let mut i: usize = 0;
    assert(out@ =~= seq![]);
    while i < v.len()
        invariant
            v@ == raw@,
            i <= v.len(),
            out@ == controls_escaped(raw@, i as int),
            string_scan(raw@, i as int) == (StringScan { inside, escaped }),
        decreases v.len() - i,
    {
        let ghost before = out@;
        let c = v[i];
        if inside && !escaped && c != '\\' && c != '"' {
            if c == '\n' {
                out.append("\\n");
            } else if c == '\r' {
                out.append("\\r");
            } else if c == '\t' {
                out.append("\\t");
            } else if is_control_char(c) {
                out.push('\\');
                out.push('u');
                let n: u32 = crate::util::chars::char_code(c);
                assert(n <= 0x9f);
                push_hex_word(&mut out, n as u16);
            } else {
                out.push(c);
            }
            assert(out@ =~= before + control_escaped(c));
        } else {
            out.push(c);
            assert(out@ =~= before + seq![c]);
        }
        if inside {
            if escaped {
                escaped = false;
            } else if c == '\\' {
                escaped = true;
            } else if c == '"' {
                inside = false;
            }
        } else {
            inside = c == '"';
            escaped = false;
        }
        i = i + 1;
    }
    out
}

/// The options of a URL rule: JSON, if need be after its control characters are
/// escaped.
pub open spec fn options_of(raw: Seq<char>) -> Result<JsonV, Seq<char>> {
    match json_read(raw) {
        Ok(v) => Ok(v),
        Err(_) => match json_read(controls_escaped(raw, raw.len() as int)) {
            Ok(v) => Ok(v),
            Err(e) => Err("invalid URL options: "@ + e),
        },
    }
}

pub fn parse_url_options(raw: &str) -> (r: Result<Json, String>)
    ensures
        match r {
            Ok(v) => options_of(raw@) == Ok::<JsonV, Seq<char>>(v.model()),
            Err(e) => options_of(raw@) == Err::<JsonV, Seq<char>>(e@),
        },
{
    match read_json(raw) {
        Ok(v) => Ok(v),
        Err(_) => match read_json(escape_control_chars_in_json_strings(raw).as_str()) {
            Ok(v) => Ok(v),
            Err(e) => Err(concat("invalid URL options: ", e.as_str())),
        },
    }
}

/// A script without the mark before it, if there is one.
pub open spec fn marked_script(value: Seq<char>) -> Option<Seq<char>> {
    match strip_prefix_of(value, "@js:"@) {
        Some(x) => Some(x),
        None => match strip_prefix_of(value, "js:"@) {
            Some(x) => Some(x),
            None => match strip_prefix_of(value, "<js>"@) {
                Some(x) => strip_suffix_of(x, "</js>"@),
                None => None,
            },
        },
    }
}

pub fn strip_js_prefix(value: &str) -> (r: Option<String>)
    ensures
        opt_text(r) == marked_script(value@),
{
    match strip_prefix(value, "@js:") {
        Some(x) => Some(x),
        None => match strip_prefix(value, "js:") {
            Some(x) => Some(x),
            None => match strip_prefix(value, "<js>") {
                Some(x) => strip_suffix(x.as_str(), "</js>"),
                None => None,
            },
        },
    }
}

/// A header's value as text: none for `null`.
pub open spec fn plain_text(v: JsonV) -> Option<Seq<char>> {
    match v {
        JsonV::Null => None,
        JsonV::Text(s) => Some(s),
        _ => Some(json_text_of(v)),
    }
}

pub fn value_to_string(v: &Json) -> (r: Option<String>)
    ensures
        opt_text(r) == plain_text(v.model()),
{
    broadcast use {lemma_array_model, lemma_object_model};

    match v {
        Json::Null => None,
        Json::Text(s) => Some(s.clone()),
        _ => Some(json_to_text(v)),
    }
}

/// The headers that the first `n` members of an object give; blank names give none.
pub open spec fn member_headers(m: Seq<(Seq<char>, JsonV)>, n: int) -> Seq<(Seq<char>, Seq<char>)>
    decreases n,
{
    if n <= 0 {
        seq![]
    } else if trim_of(m[n - 1].0).len() == 0 {
        member_headers(m, n - 1)
    } else {
        member_headers(m, n - 1).push((m[n - 1].0, or_blank(plain_text(m[n - 1].1))))
    }
}

pub fn headers_from_members(m: &Vec<(String, Json)>) -> (r: Vec<(String, String)>)
    ensures
        pairs(r@) == member_headers(member_models(m@), m.len() as int),
{
    let ghost all = member_models(m@);
    let mut r: Vec<(String, String)> = Vec::new();
    let mut k: usize = 0;
    assert(pairs(r@) =~= seq![]);
    while k < m.len()
        invariant
            k <= m.len(),
            all == member_models(m@),
            pairs(r@) == member_headers(all, k as int),
        decreases m.len() - k,
    {
        assert(all[k as int] == (m@[k as int].0@, m@[k as int].1.model()));
        if !is_empty_text(trim(m[k].0.as_str()).as_str()) {
            let ghost before = pairs(r@);
            let name = m[k].0.clone();
            let value = text_or_blank(value_to_string(&m[k].1));
            let ghost x = (name@, value@);
            r.push((name, value));
            assert(pairs(r@) =~= before.push(x));
        }
        k = k + 1;
    }
    r
}

/// The header that `name: value` writes, quotes taken off.
pub open spec fn header_pair(part: Seq<char>) -> Option<(Seq<char>, Seq<char>)> {
    match split_once_of(part, ":"@) {
        Some((n, v)) => {
            let name = without_quotes(trim_of(n));
            if name.len() == 0 {
                None
            } else {
                Some((name, without_quotes(trim_of(v))))
            }
        },
        None => None,
    }
}

pub open spec fn listed_headers(parts: Seq<Seq<char>>, n: int) -> Seq<(Seq<char>, Seq<char>)>
    decreases n,
{
    if n <= 0 {
        seq![]
    } else {
        match header_pair(parts[n - 1]) {
            Some(h) => listed_headers(parts, n - 1).push(h),
            None => listed_headers(parts, n - 1),
        }
    }
}

/// The headers that a text writes: a JSON object, or a list `name: value, ..`.
pub open spec fn headers_of(raw: Seq<char>) -> Seq<(Seq<char>, Seq<char>)> {
    match json_of(raw) {
        Some(JsonV::Object(m)) => member_headers(m, m.len() as int),
        _ => {
            let parts = split_of(without_suffixes(without_prefixes(trim_of(raw), "{"@), "}"@), ","@);
            listed_headers(parts, parts.len() as int)
        },
    }
}

pub fn parse_source_headers(raw: &str) -> (r: Vec<(String, String)>)
    ensures
        pairs(r@) == headers_of(raw@),
{
    broadcast use {lemma_array_model, lemma_object_model};

    if let Some(Json::Object(m)) = parse_json(raw) {
        assert(member_models(m@).len() == m.len());
        return headers_from_members(&m);
    }
    let body = trim_end_matches(trim_start_matches(trim(raw).as_str(), "{").as_str(), "}");
    proof {
        reveal_strlit(",");
    }
    let parts = split(body.as_str(), ",");
    let ghost all = split_of(body@, ","@);
    let mut r: Vec<(String, String)> = Vec::new();
    let mut k: usize = 0;
    assert(pairs(r@) =~= seq![]);
    while k < parts.len()
        invariant
            k <= parts.len(),
            all == texts(parts@),
            pairs(r@) == listed_headers(all, k as int),
        decreases parts.len() - k,
    {
        assert(all[k as int] == parts@[k as int]@);
        if let Some((n, v)) = split_once(parts[k].as_str(), ":") {
            let name = trim_quotes(trim(n.as_str()).as_str());
            let value = trim_quotes(trim(v.as_str()).as_str());
            if !is_empty_text(name.as_str()) {
                let ghost before = pairs(r@);
                let ghost x = (name@, value@);
                r.push((name, value));
                assert(pairs(r@) =~= before.push(x));
            }
        }
        k = k + 1;
    }
    assert(all.len() == parts.len());
    r
}

/// The headers that a JSON value gives: a text that writes them, or an object.
pub open spec fn value_headers(v: JsonV) -> Seq<(Seq<char>, Seq<char>)> {
    match v {
        JsonV::Text(raw) => headers_of(raw),
        JsonV::Object(m) => member_headers(m, m.len() as int),
        _ => seq![],
    }
}

pub fn headers_from_value(v: &Json) -> (r: Vec<(String, String)>)
    ensures
        pairs(r@) == value_headers(v.model()),
{
    broadcast use {lemma_array_model, lemma_object_model};

    match v {
        Json::Text(raw) => parse_source_headers(raw.as_str()),
        Json::Object(m) => {
            assert(member_models(m@).len() == m.len());
            headers_from_members(m)
        },
        _ => {
            let r: Vec<(String, String)> = Vec::new();
            assert(pairs(r@) =~= seq![]);
            r
        },
    }
}

/// The first `n` headers without those named `proxy`.
pub open spec fn without_proxy(h: Seq<(Seq<char>, Seq<char>)>, n: int) -> Seq<(Seq<char>, Seq<char>)>
    decreases n,
{
    if n <= 0 {
        seq![]
    } else if same_name(h[n - 1].0, "proxy"@) {
        without_proxy(h, n - 1)
    } else {
        without_proxy(h, n - 1).push(h[n - 1])
    }
}

/// The value of the last of the first `n` headers that is named `proxy`.
pub open spec fn proxy_of(h: Seq<(Seq<char>, Seq<char>)>, n: int) -> Option<Seq<char>>
    decreases n,
{
    if n <= 0 {
        None
    } else if same_name(h[n - 1].0, "proxy"@) {
        Some(h[n - 1].1)
    } else {
        proxy_of(h, n - 1)
    }
}

pub fn take_proxy_header(headers: &Vec<(String, String)>) -> (r: (Vec<(String, String)>, Option<String>))
    ensures
        pairs(r.0@) == without_proxy(pairs(headers@), headers.len() as int),
        opt_text(r.1) == proxy_of(pairs(headers@), headers.len() as int),
{
    let ghost all = pairs(headers@);
    let mut rest: Vec<(String, String)> = Vec::new();
    let mut proxy: Option<String> = None;
    let mut k: usize = 0;
    assert(pairs(rest@) =~= seq![]);
    while k < headers.len()
        invariant
            k <= headers.len(),
            all == pairs(headers@),
            pairs(rest@) == without_proxy(all, k as int),
            opt_text(proxy) == proxy_of(all, k as int),
        decreases headers.len() - k,
    {
        assert(all[k as int] == (headers@[k as int].0@, headers@[k as int].1@));
        let name = headers[k].0.as_str();
        if eq_ignore_ascii_case(name, "proxy") {
            proxy = Some(headers[k].1.clone());
        } else {
            let ghost before = pairs(rest@);
            rest.push((headers[k].0.clone(), headers[k].1.clone()));
            assert(pairs(rest@) =~= before.push(all[k as int]));
        }
        k = k + 1;
    }
    (rest, proxy)
}

/// Headers with one more: its value takes the place of the first of that name,
/// or it comes at the end.
pub open spec fn with_header(h: Seq<(Seq<char>, Seq<char>)>, name: Seq<char>, value: Seq<char>, k: int) -> Seq<
    (Seq<char>, Seq<char>),
>
    decreases h.len() - k,
{
    if k < 0 || k >= h.len() {
        h.push((name, value))
    } else if same_name(h[k].0, name) {
        h.update(k, (h[k].0, value))
    } else {
        with_header(h, name, value, k + 1)
    }
}

/// Headers with the first `n` of others merged in; `proxy` is passed over.
pub open spec fn merged_headers(
    h: Seq<(Seq<char>, Seq<char>)>,
    extra: Seq<(Seq<char>, Seq<char>)>,
    n: int,
) -> Seq<(Seq<char>, Seq<char>)>
    decreases n,
{
    if n <= 0 {
        h
    } else {
        let before = merged_headers(h, extra, n - 1);
        if same_name(extra[n - 1].0, "proxy"@) {
            before
        } else {
            with_header(before, extra[n - 1].0, extra[n - 1].1, 0)
        }
    }
}

pub fn set_header(h: &mut Vec<(String, String)>, name: &str, value: &str)
    ensures
        pairs(final(h)@) == with_header(pairs(old(h)@), name@, value@, 0),
{
    let ghost all = pairs(h@);
    let mut k: usize = 0;
    while k < h.len()
        invariant
            k <= h.len(),
            pairs(h@) == all,
            all == pairs(old(h)@),
            with_header(all, name@, value@, 0) == with_header(all, name@, value@, k as int),
        decreases h.len() - k,
    {
        assert(all[k as int] == (h@[k as int].0@, h@[k as int].1@));
        if eq_ignore_ascii_case(h[k].0.as_str(), name) {
            let own = h[k].0.clone();
            let ghost x = (own@, value@);
            h.set(k, (own, copy(value)));
            assert(pairs(h@) =~= all.update(k as int, x));
            return;
        }
        k = k + 1;
    }
    h.push((copy(name), copy(value)));
    assert(pairs(h@) =~= all.push((name@, value@)));
}

pub fn merge_headers(target: &mut Vec<(String, String)>, extra: &Vec<(String, String)>)
    ensures
        pairs(final(target)@) == merged_headers(pairs(old(target)@), pairs(extra@), extra.len() as int),
{
    let ghost base = pairs(target@);
    let ghost all = pairs(extra@);
    let mut k: usize = 0;
    while k < extra.len()
        invariant
            k <= extra.len(),
            all == pairs(extra@),
            pairs(target@) == merged_headers(base, all, k as int),
        decreases extra.len() - k,
    {
        assert(all[k as int] == (extra@[k as int].0@, extra@[k as int].1@));
        if !eq_ignore_ascii_case(extra[k].0.as_str(), "proxy") {
            set_header(target, extra[k].0.as_str(), extra[k].1.as_str());
        }
        k = k + 1;
    }
}

/// Whether one of the headers has that name.
pub open spec fn has_header(h: Seq<(Seq<char>, Seq<char>)>, name: Seq<char>) -> bool {
    exists|i: int| 0 <= i < h.len() && same_name((#[trigger] h[i]).0, name)
}

pub fn contains_header(h: &Vec<(String, String)>, name: &str) -> (r: bool)
    ensures
        r == has_header(pairs(h@), name@),
{
    let ghost all = pairs(h@);
    let mut k: usize = 0;
    while k < h.len()
        invariant
            k <= h.len(),
            all == pairs(h@),
            forall|i: int| 0 <= i < k ==> !same_name((#[trigger] all[i]).0, name@),
        decreases h.len() - k,
    {
        assert(all[k as int] == (h@[k as int].0@, h@[k as int].1@));
        if eq_ignore_ascii_case(h[k].0.as_str(), name) {
            return true;
        }
        k = k + 1;
    }
    false
}

/// Headers with a user agent, the usual one where none is set.
pub open spec fn with_user_agent(h: Seq<(Seq<char>, Seq<char>)>) -> Seq<(Seq<char>, Seq<char>)> {
    if has_header(h, "user-agent"@) {
        h
    } else {
        h.push(("User-Agent"@, default_user_agent()))
    }
}

pub fn ensure_user_agent(h: &mut Vec<(String, String)>)
    ensures
        pairs(final(h)@) == with_user_agent(pairs(old(h)@)),
{
    if !contains_header(h, "user-agent") {
        let ghost before = pairs(h@);
        h.push(
            (
                "User-Agent".to_owned(),
                "Mozilla/5.0 (Windows NT 10.0; Win64; x64) AppleWebKit/537.36 (KHTML, like Gecko) Chrome/120.0.0.0 Safari/537.36".to_owned(),
            ),
        );
        assert(pairs(h@) =~= before.push(("User-Agent"@, default_user_agent())));
    }
}

/// Headers that are completed name a user agent.
proof fn lemma_user_agent_set(h: Seq<(Seq<char>, Seq<char>)>)
    ensures
        has_header(with_user_agent(h), "user-agent"@),
{
    if !has_header(h, "user-agent"@) {
        reveal_strlit("user-agent");
        reveal_strlit("User-Agent");
        let s = with_user_agent(h);
        assert(s[s.len() - 1].0 == "User-Agent"@);
        assert(lower_ascii_of("User-Agent"@) =~= lower_ascii_of("user-agent"@));
        assert(same_name(s[s.len() - 1].0, "user-agent"@));
    }
}

/// An address made absolute: itself with a scheme, `https` where only the
/// scheme is missing, else joined to the base; itself where that fails.
pub open spec fn absolute_of(base: Seq<char>, raw: Seq<char>) -> Seq<char> {
    let u = trim_of(raw);
    if has_prefix(u, "http://"@) || has_prefix(u, "https://"@) {
        u
    } else if has_prefix(u, "//"@) {
        "https:"@ + u
    } else {
        match url_joined(base, u) {
            Some(Ok(x)) => x,
            _ => u,
        }
    }
}

pub fn absolute_url(base: &str, raw_url: &str) -> (r: String)
    ensures
        r@ == absolute_of(base@, raw_url@),
{
    let u = trim(raw_url);
    if starts_with(u.as_str(), "http://") || starts_with(u.as_str(), "https://") {
        return u;
    }
    if starts_with(u.as_str(), "//") {
        return concat("https:", u.as_str());
    }
    match join_url(base, u.as_str()) {
        Some(Ok(x)) => x,
        _ => u,
    }
}

/// Why an address cannot be requested, if it cannot.
pub open spec fn url_fault(raw: Seq<char>) -> Option<Seq<char>> {
    match url_read(raw) {
        Ok(u) => if u.scheme == "http"@ || u.scheme == "https"@ {
            None
        } else {
            Some("unsupported URL scheme: "@ + u.scheme)
        },
        Err(e) => Some("invalid URL: "@ + e),
    }
}

pub fn validate_http_url(raw: &str) -> (r: Option<String>)
    ensures
        opt_text(r) == url_fault(raw@),
{
    match parse_url(raw) {
        Ok(u) => if same(u.scheme.as_str(), "http") || same(u.scheme.as_str(), "https") {
            None
        } else {
            Some(concat("unsupported URL scheme: ", u.scheme.as_str()))
        },
        Err(e) => Some(concat("invalid URL: ", e.as_str())),
    }
}

/// A value in a charset: as `escape` writes it, or the bytes of the encoding.
pub open spec fn query_value(value: Seq<char>, charset: Seq<char>) -> Seq<char> {
    let v = match percent_decoded(value) {
        Some(t) => t,
        None => value,
    };
    if same_name(charset, "escape"@) {
        escape_of(v)
    } else {
        percent_of(encoded_as(charset, v))
    }
}

pub open spec fn query_part(part: Seq<char>, charset: Seq<char>) -> Seq<char> {
    match split_once_of(part, "="@) {
        Some((n, v)) => n + "="@ + query_value(v, charset),
        None => part + "="@ + query_value(seq![], charset),
    }
}

pub open spec fn query_parts(parts: Seq<Seq<char>>, charset: Seq<char>) -> Seq<Seq<char>> {
    Seq::new(parts.len(), |i: int| query_part(parts[i], charset))
}

/// A serialized address with another query.
pub open spec fn with_query(url: Seq<char>, query: Seq<char>) -> Seq<char> {
    let f = match find_of(url, "#"@) {
        Some(k) => k,
        None => url.len() as int,
    };
    let q = match find_of(url.subrange(0, f), "?"@) {
        Some(k) => k,
        None => f,
    };
    url.subrange(0, q) + "?"@ + query + url.subrange(f, url.len() as int)
}

pub fn replace_serialized_query(url: &str, query: &str) -> (r: String)
    ensures
        r@ == with_query(url@, query@),
{
    let v = chars_of(url);
    let total: usize = v.len();
    let f: usize = match find(url, "#") {
        Some(k) => k,
        None => total,
    };
    let head = string_range(&v, 0, f);
    let q: usize = match find(head.as_str(), "?") {
        Some(k) => k,
        None => f,
    };
    let mut r = string_range(&v, 0, q);
    r.append("?");
    r.append(query);
    r.append(string_range(&v, f, total).as_str());
    r
}

/// Whether a charset is another one than UTF-8, and one that is known.
pub open spec fn recoded_charset(charset: Option<Seq<char>>) -> Option<Seq<char>> {
    match charset {
        Some(c) => if same_name(c, "utf-8"@) || same_name(c, "utf8"@) {
            None
        } else if same_name(c, "escape"@) || encoding_of(c) is Some {
            Some(c)
        } else {
            None
        },
        None => None,
    }
}

/// An address with the values of its query in the request's charset.
pub open spec fn encoded_query(raw: Seq<char>, charset: Option<Seq<char>>) -> Seq<char> {
    match (recoded_charset(charset), url_read(raw)) {
        (Some(c), Ok(u)) => match u.query {
            Some(q) => with_query(u.href, join_of(query_parts(split_of(q, "&"@), c), "&"@)),
            None => raw,
        },
        _ => raw,
    }
}

fn encode_query_part(part: &str, charset: &str) -> (r: String)
    requires
        same_name(charset@, "escape"@) || encoding_of(charset@) is Some,
    ensures
        r@ == query_part(part@, charset@),
{
    let (name, value) = match split_once(part, "=") {
        Some((n, v)) => (n, v),
        None => (copy(part), text_or_blank(None)),
    };
    let decoded = match percent_decode(value.as_str()) {
        Some(t) => t,
        None => value,
    };
    let encoded = if eq_ignore_ascii_case(charset, "escape") {
        escape_component(decoded.as_str())
    } else {
        percent_encode_bytes(&encode_text(charset, decoded.as_str()))
    };
    concat3(name.as_str(), "=", encoded.as_str())
}

/// Encodes the query of an address in another charset than UTF-8.
pub fn encode_get_query(raw_url: &str, charset: Option<&str>) -> (r: String)
    ensures
        r@ == encoded_query(raw_url@, opt_str(charset)),
{
    let c = match charset {
        Some(c) => c,
        None => {
            return copy(raw_url);
        },
    };
    if eq_ignore_ascii_case(c, "utf-8") || eq_ignore_ascii_case(c, "utf8") {
        return copy(raw_url);
    }
    if !eq_ignore_ascii_case(c, "escape") && encoding_for_label(c).is_none() {
        return copy(raw_url);
    }
    let url = match parse_url(raw_url) {
        Ok(u) => u,
        Err(_) => {
            return copy(raw_url);
        },
    };
    let query = match &url.query {
        Some(q) => q,
        None => {
            return copy(raw_url);
        },
    };
    replace_serialized_query(url.href.as_str(), encode_query(query.as_str(), c).as_str())
}

/// Encodes the values of a query in a charset that is known, or as scripts
/// escape them.
pub fn encode_query(query: &str, c: &str) -> (r: String)
    requires
        same_name(c@, "escape"@) || encoding_of(c@) is Some,
    ensures
        r@ == join_of(query_parts(split_of(query@, "&"@), c@), "&"@),
{
    proof {
        reveal_strlit("&");
    }
    let parts = split(query, "&");
    let ghost all = split_of(query@, "&"@);
    let ghost want = query_parts(all, c@);
    let mut encoded: Vec<String> = Vec::new();
    let mut k: usize = 0;
    while k < parts.len()
        invariant
            k <= parts.len(),
            all == texts(parts@),
            want == query_parts(all, c@),
            same_name(c@, "escape"@) || encoding_of(c@) is Some,
            texts(encoded@) =~= want.take(k as int),
        decreases parts.len() - k,
    {
        assert(all[k as int] == parts@[k as int]@);
        let ghost before = texts(encoded@);
        let t = encode_query_part(parts[k].as_str(), c);
        let ghost x = t@;
        encoded.push(t);
        assert(texts(encoded@) =~= before.push(x));
        k = k + 1;
    }
    assert(all.len() == parts.len());
    assert(want.take(want.len() as int) =~= want);
    join(&encoded, "&")
}

/// Whether a text is an encoded form already, from position `i` on.
pub open spec fn encoded_form_from(s: Seq<char>, i: int) -> bool
    decreases s.len() - i,
{
    if i < 0 || i >= s.len() {
        true
    } else if s[i] == '%' {
        i + 2 < s.len() && is_hex_digit(s[i + 1]) && is_hex_digit(s[i + 2]) && encoded_form_from(s, i + 3)
    } else {
        (is_ascii_letter(s[i]) || is_digit(s[i]) || s[i] == '*' || s[i] == '-' || s[i] == '.' || s[i] == '_' || s[i]
            == '+' || s[i] == '&' || s[i] == '=') && encoded_form_from(s, i + 1)
    }
}

pub fn is_hex_char(c: char) -> (r: bool)
    ensures
        r == is_hex_digit(c),
{
    is_digit_char(c) || ('a' <= c && c <= 'f') || ('A' <= c && c <= 'F')
}

/// Whether a text is an encoded form already.
pub fn is_encoded_form(body: &str) -> (r: bool)
    ensures
        r == encoded_form_from(body@, 0),
{
    let v = chars_of(body);
    let mut i: usize = 0;
    while i < v.len()
        invariant
            v@ == body@,
            i <= v.len(),
            encoded_form_from(body@, 0) == encoded_form_from(body@, i as int),
        decreases v.len() - i,
    {
        let c = v[i];
        if c == '%' {
            if v.len() - i <= 2 || !is_hex_char(v[i + 1]) || !is_hex_char(v[i + 2]) {
                return false;
            }
            i = i + 3;
        } else {
            if !(is_ascii_letter_char(c) || is_digit_char(c) || c == '*' || c == '-' || c == '.' || c == '_' || c == '+' || c
                == '&' || c == '=') {
                return false;
            }
            i = i + 1;
        }
    }
    true
}

/// The charset of a form: the one that is set, trimmed, if it is not blank.
pub open spec fn form_charset(charset: Option<Seq<char>>) -> Option<Seq<char>> {
    match charset {
        Some(c) => if trim_of(c).len() == 0 {
            None
        } else {
            Some(trim_of(c))
        },
        None => None,
    }
}

/// A name or value of a form: as `escape` writes it, in its encoding, or in
/// UTF-8 where that is unknown.
pub open spec fn form_component(value: Seq<char>, charset: Option<Seq<char>>) -> Seq<char> {
    match charset {
        Some(c) => if same_name(c, "escape"@) {
            escape_of(value)
        } else if encoding_of(c) is Some {
            form_of(encoded_as(c, value))
        } else {
            form_of(encode_utf8(value))
        },
        None => form_of(encode_utf8(value)),
    }
}

pub open spec fn form_part(part: Seq<char>, charset: Option<Seq<char>>) -> Seq<char> {
    match split_once_of(part, "="@) {
        Some((n, v)) => form_component(n, charset) + "="@ + form_component(v, charset),
        None => form_component(part, charset) + "="@ + form_component(seq![], charset),
    }
}

pub open spec fn form_parts(parts: Seq<Seq<char>>, charset: Option<Seq<char>>) -> Seq<Seq<char>> {
    Seq::new(parts.len(), |i: int| form_part(parts[i], charset))
}

/// A form body, encoded: as it is where it is encoded already and no charset is set.
pub open spec fn encoded_form(body: Seq<char>, charset: Option<Seq<char>>) -> Seq<char> {
    let c = form_charset(charset);
    if c is None && encoded_form_from(body, 0) {
        body
    } else {
        join_of(form_parts(split_of(body, "&"@), c), "&"@)
    }
}

pub fn encode_form_component(value: &str, charset: Option<&str>) -> (r: String)
    ensures
        r@ == form_component(value@, opt_str(charset)),
{
    if let Some(c) = charset {
        if eq_ignore_ascii_case(c, "escape") {
            return escape_component(value);
        }
        if encoding_for_label(c).is_some() {
            return form_encode_bytes(&encode_text(c, value));
        }
    }
    form_encode_bytes(&value.as_bytes_vec())
}

pub fn encode_form_part(part: &str, charset: Option<&str>) -> (r: String)
    ensures
        r@ == form_part(part@, opt_str(charset)),
{
    let (name, value) = match split_once(part, "=") {
        Some((n, v)) => (n, v),
        None => (copy(part), text_or_blank(None)),
    };
    concat3(
        encode_form_component(name.as_str(), charset).as_str(),
        "=",
        encode_form_component(value.as_str(), charset).as_str(),
    )
}

pub fn encode_form_parts(parts: &Vec<String>, charset: Option<&str>) -> (r: Vec<String>)
    ensures
        texts(r@) == form_parts(texts(parts@), opt_str(charset)),
{
    let ghost all = texts(parts@);
    let ghost want = form_parts(all, opt_str(charset));
    let mut r: Vec<String> = Vec::new();
    let mut k: usize = 0;
    while k < parts.len()
        invariant
            k <= parts.len(),
            all == texts(parts@),
            want == form_parts(all, opt_str(charset)),
            texts(r@) =~= want.take(k as int),
        decreases parts.len() - k,
    {
        assert(all[k as int] == parts@[k as int]@);
        let ghost before = texts(r@);
        let t = encode_form_part(parts[k].as_str(), charset);
        let ghost x = t@;
        r.push(t);
        assert(texts(r@) =~= before.push(x));
        k = k + 1;
    }
    assert(all.len() == parts.len());
    assert(want.take(want.len() as int) =~= want);
    r
}

/// Encodes a form body.
pub fn encode_form_body(body: &str, charset: Option<&str>) -> (r: String)
    ensures
        r@ == encoded_form(body@, opt_str(charset)),
{
    let trimmed: Option<String> = match charset {
        Some(c) => {
            let t = trim(c);
            if is_empty_text(t.as_str()) {
                None
            } else {
                Some(t)
            }
        },
        None => None,
    };
    if trimmed.is_none() && is_encoded_form(body) {
        return copy(body);
    }
    proof {
        reveal_strlit("&");
    }
    let parts = split(body, "&");
    let c: Option<&str> = match &trimmed {
        Some(t) => Some(t.as_str()),
        None => None,
    };
    join(&encode_form_parts(&parts, c), "&")
}

/// The body of a request and its headers with the body's content type.
pub open spec fn prepared_body(
    post: bool,
    body: Option<Seq<char>>,
    h: Seq<(Seq<char>, Seq<char>)>,
    charset: Option<Seq<char>>,
) -> (Option<Seq<char>>, Seq<(Seq<char>, Seq<char>)>) {
    match body {
        Some(b) => {
            let t = trim_start_of(b);
            if !post || trim_of(b).len() == 0 || has_header(h, "content-type"@) {
                (Some(b), h)
            } else if has_prefix(t, "{"@) || has_prefix(t, "["@) {
                (Some(b), h.push(("content-type"@, "application/json"@)))
            } else if has_prefix(t, "<?xml"@) || (has_prefix(t, "<"@) && contains_text(t, ">"@)) {
                (Some(b), h.push(("content-type"@, "application/xml"@)))
            } else {
                (
                    Some(encoded_form(b, charset)),
                    h.push(("content-type"@, "application/x-www-form-urlencoded"@)),
                )
            }
        },
        None => (None, h),
    }
}

pub fn push_content_type(h: &mut Vec<(String, String)>, value: &str)
    ensures
        pairs(final(h)@) == pairs(old(h)@).push(("content-type"@, value@)),
{
    let ghost before = pairs(h@);
    h.push(("content-type".to_owned(), value.to_owned()));
    assert(pairs(h@) =~= before.push(("content-type"@, value@)));
}

/// Prepares the body of a request: a form is encoded, and the type of the
/// content is told where no header tells it.
pub fn prepare_request_body(
    is_post: bool,
    body: Option<String>,
    headers: &mut Vec<(String, String)>,
    charset: Option<&str>,
) -> (r: Option<String>)
    ensures
        (opt_text(r), pairs(final(headers)@)) == prepared_body(
            is_post,
            opt_text(body),
            pairs(old(headers)@),
            opt_str(charset),
        ),
{
    let b = match body {
        Some(b) => b,
        None => {
            return None;
        },
    };
    if !is_post || is_empty_text(trim(b.as_str()).as_str()) || contains_header(headers, "content-type") {
        return Some(b);
    }
    let t = trim_start(b.as_str());
    if starts_with(t.as_str(), "{") || starts_with(t.as_str(), "[") {
        push_content_type(headers, "application/json");
        return Some(b);
    }
    if starts_with(t.as_str(), "<?xml") || (starts_with(t.as_str(), "<") && contains(t.as_str(), ">")) {
        push_content_type(headers, "application/xml");
        return Some(b);
    }
    push_content_type(headers, "application/x-www-form-urlencoded");
    Some(encode_form_body(b.as_str(), charset))
}

/// The choices that a page choice `<a,b,..>` lists.
pub open spec fn choices_in(parts: Seq<Seq<char>>) -> Seq<Seq<char>> {
    crate::parser::html::filled(parts, parts.len() as int)
}

/// The choice for a page: the one of its number, else the last.
pub open spec fn page_choice(choices: Seq<Seq<char>>, page: int) -> Seq<char> {
    if 1 <= page <= choices.len() {
        choices[page - 1]
    } else if choices.len() > 0 {
        choices.last()
    } else {
        seq![]
    }
}

pub open spec fn page_choices(found: Seq<FoundV>, page: int) -> Seq<Seq<char>> {
    Seq::new(
        found.len(),
        |i: int| page_choice(choices_in(split_of(group_text(found[i].groups, 1), ","@)), page),
    )
}

/// An address with the page choices that were found in it made.
pub open spec fn found_choices_made(m: MatchesV, page: int) -> Seq<char> {
    assembled(m, page_choices(m.found, page), m.found.len() as int) + m.tail
}

/// An address with its page choices made.
pub open spec fn choices_made(rule: Seq<char>, page: int) -> Seq<char> {
    match regex_matches("<([^<>]*)>"@, rule) {
        Some(m) => found_choices_made(m, page),
        None => rule,
    }
}

pub fn choose_page(list: &str, page: i32) -> (r: String)
    ensures
        r@ == page_choice(choices_in(split_of(list@, ","@)), page as int),
{
    proof {
        reveal_strlit(",");
    }
    let parts = split(list, ",");
    let choices = crate::parser::html::trimmed_texts(&parts);
    let ghost all = texts(choices@);
    assert(all.len() == choices.len());
    if choices.len() == 0 {
        return text_or_blank(None);
    }
    if 1 <= page && (page as u64) <= choices.len() as u64 {
        let k: usize = (page - 1) as usize;
        assert(all[k as int] == choices@[k as int]@);
        return choices[k].clone();
    }
    let k: usize = choices.len() - 1;
    assert(all[k as int] == choices@[k as int]@);
    choices[k].clone()
}

pub fn replace_page_choices(rule: &str, page: i32) -> (r: String)
    ensures
        r@ == choices_made(rule@, page as int),
{
    match find_matches("<([^<>]*)>", rule) {
        Some(m) => make_choices(&m, page),
        None => copy(rule),
    }
}

/// Makes the page choices that were found in an address.
pub fn make_choices(m: &Matches, page: i32) -> (r: String)
    ensures
        r@ == found_choices_made(m.model(), page as int),
{
    let ghost all = found_models(m.found@);
    let ghost want = page_choices(all, page as int);
    let mut parts: Vec<String> = Vec::new();
    let mut i: usize = 0;
    while i < m.found.len()
        invariant
            i <= m.found.len(),
            all == found_models(m.found@),
            want == page_choices(all, page as int),
            texts(parts@) =~= want.take(i as int),
        decreases m.found.len() - i,
    {
        assert(all[i as int] == m.found@[i as int].model());
        let ghost before = texts(parts@);
        let t = choose_page(group_at(&m.found[i].groups, 1).as_str(), page);
        let ghost x = t@;
        parts.push(t);
        assert(texts(parts@) =~= before.push(x));
        i = i + 1;
    }
    assert(want.take(all.len() as int) =~= want);
    assert(parts.len() == texts(parts@).len());
    assemble(m, &parts)
}

/// A rule with the page choices of its address made; its options stay.
pub open spec fn choices_before_options(rule: Seq<char>, page: int) -> Seq<char> {
    let s = options_split(rule);
    match s.1 {
        Some(options) => choices_made(s.0, page) + ","@ + options,
        None => choices_made(s.0, page),
    }
}

pub fn replace_page_choices_before_options(rule: &str, page: i32) -> (r: String)
    ensures
        r@ == choices_before_options(rule@, page as int),
{
    let (url, options) = split_url_options(rule);
    let chosen = replace_page_choices(url.as_str(), page);
    match options {
        Some(o) => concat3(chosen.as_str(), ",", o.as_str()),
        None => chosen,
    }
}

pub open spec fn page_text(page: int) -> Seq<char> {
    decimal_of(
        if page < 1 {
            1
        } else {
            page
        },
    )
}

/// A rule with the placeholders of the key and the page filled.
pub open spec fn placeholders_filled(rule: Seq<char>, key: Seq<char>, page: int) -> Seq<char> {
    let k = percent_of(encode_utf8(key));
    let a = replace_of(replace_of(rule, "{key}"@, k), "searchKey"@, k);
    replace_of(replace_of(a, "{page}"@, page_text(page)), "searchPage"@, page_text(page))
}

pub fn replace_legacy_placeholders(rule: &str, key: &str, page: i32) -> (r: String)
    ensures
        r@ == placeholders_filled(rule@, key@, page as int),
{
    proof {
        reveal_strlit("{key}");
        reveal_strlit("searchKey");
        reveal_strlit("{page}");
        reveal_strlit("searchPage");
    }
    let k = percent_encode(key);
    let n: u64 = if page < 1 {
        1
    } else {
        page as u64
    };
    let p = decimal(n);
    let t = replace(rule, "{key}", k.as_str());
    let t = replace(t.as_str(), "searchKey", k.as_str());
    let t = replace(t.as_str(), "{page}", p.as_str());
    replace(t.as_str(), "searchPage", p.as_str())
}

/// What the scripts of a URL rule see.
pub struct UrlAskV {
    pub key: Seq<char>,
    pub page: i32,
    pub source: Seq<char>,
    pub base: Seq<char>,
}

/// What the scripts of a URL rule see.
#[derive(Clone, Copy)]
pub struct UrlAsk<'a> {
    pub key: &'a str,
    pub page: i32,
    pub source: &'a str,
    pub base: &'a str,
}

impl<'a> UrlAsk<'a> {
    pub open spec fn model(self) -> UrlAskV {
        UrlAskV { key: self.key@, page: self.page, source: self.source@, base: self.base@ }
    }
}

/// The text between scripts, with `@result` standing for what came before; a
/// blank one leaves what came before.
pub open spec fn between_scripts(text: Seq<char>, result: Seq<char>) -> Seq<char> {
    if trim_of(text).len() == 0 {
        result
    } else {
        replace_of(trim_of(text), "@result"@, result)
    }
}

pub fn fill_result(text: &str, result: String) -> (r: String)
    ensures
        r@ == between_scripts(text@, result@),
{
    let t = trim(text);
    if is_empty_text(t.as_str()) {
        return result;
    }
    proof {
        reveal_strlit("@result");
    }
    replace(t.as_str(), "@result", result.as_str())
}

/// The script of a match, in one of three forms.
pub open spec fn segment_script(groups: Seq<Option<Seq<char>>>) -> Seq<char> {
    if groups.len() > 1 && groups[1] is Some {
        groups[1]->0
    } else if groups.len() > 2 && groups[2] is Some {
        groups[2]->0
    } else if groups.len() > 3 && groups[3] is Some {
        groups[3]->0
    } else {
        seq![]
    }
}

pub fn script_of_segment(groups: &Vec<Option<String>>) -> (r: String)
    ensures
        r@ == segment_script(opt_texts(groups@)),
{
    let mut k: usize = 1;
    while k <= 3
        invariant
            1 <= k <= 4,
            forall|i: int| 1 <= i < k && i < groups.len() ==> !(#[trigger] opt_texts(groups@)[i] is Some),
        decreases 4 - k,
    {
        if k < groups.len() {
            assert(opt_texts(groups@)[k as int] == opt_text(groups@[k as int]));
            if let Some(t) = &groups[k] {
                return t.clone();
            }
        }
        k = k + 1;
    }
    text_or_blank(None)
}

/// What the scripts of a URL rule from the `k`-th on make of what came before.
pub open spec fn segments_from(m: MatchesV, k: int, result: Seq<char>, a: UrlAskV, w: World, o: Oracle) -> (
    Result<Seq<char>, Seq<char>>,
    World,
)
    decreases m.found.len() - k,
{
    if k < 0 || k >= m.found.len() {
        (Ok(between_scripts(m.tail, result)), w)
    } else {
        let before = between_scripts(m.found[k].before, result);
        let got = called(
            url_call(segment_script(m.found[k].groups), before, a.key, a.page, a.source, a.base, None, false),
            w,
            o,
        );
        match got.0 {
            Ok(t) => segments_from(m, k + 1, t, a, got.1, o),
            Err(e) => (Err("URL JavaScript failed: "@ + e), got.1),
        }
    }
}

/// A URL rule after its scripts `<js>..</js>`, `@js:..` and `js:..` have run,
/// each on what came before it.
pub open spec fn scripts_run(rule: Seq<char>, a: UrlAskV, w: World, o: Oracle) -> (Result<Seq<char>, Seq<char>>, World) {
    match regex_matches("(?is)<js>(.*?)</js>|@js:(.*)$|^js:(.*)$"@, rule) {
        Some(m) => segments_from(m, 0, rule, a, w, o),
        None => (Ok(rule), w),
    }
}

pub fn eval_url_rule_js_segments<E: ScriptEngine>(rule: &str, a: UrlAsk, host: &mut Host<E>) -> (r: Result<String, String>)
    ensures
        offline(old(host).log(), final(host).log()),
        forall|o: Oracle| #[trigger]
            agrees(final(host).log(), o) ==> scripts_run(rule@, a.model(), old(host).world(), o) == (
                result_text(r),
                final(host).world(),
            ),
{
    broadcast use group_log;

    match find_matches("(?is)<js>(.*?)</js>|@js:(.*)$|^js:(.*)$", rule) {
        Some(m) => run_segments(&m, rule, a, host),
        None => Ok(copy(rule)),
    }
}

/// Runs the scripts that were found in a URL rule, each on what came before it.
pub fn run_segments<E: ScriptEngine>(m: &Matches, rule: &str, a: UrlAsk, host: &mut Host<E>) -> (r: Result<String, String>)
    ensures
        offline(old(host).log(), final(host).log()),
        forall|o: Oracle| #[trigger]
            agrees(final(host).log(), o) ==> segments_from(m.model(), 0, rule@, a.model(), old(host).world(), o) == (
                result_text(r),
                final(host).world(),
            ),
{
    broadcast use group_log;

    let ghost all = m.model();
    let ghost av = a.model();
    let ghost w0 = host.world();
    let mut result = copy(rule);
    let mut k: usize = 0;
    while k < m.found.len()
        invariant
            k <= m.found.len(),
            all == m.model(),
            av == a.model(),
            w0 == old(host).world(),
            offline(old(host).log(), host.log()),
            forall|o: Oracle| #[trigger]
                agrees(host.log(), o) ==> segments_from(all, 0, rule@, av, w0, o) == segments_from(
                    all,
                    k as int,
                    result@,
                    av,
                    host.world(),
                    o,
                ),
        decreases m.found.len() - k,
    {
        let ghost log1 = host.log();
        let ghost w1 = host.world();
        let ghost given = result@;
        assert(all.found[k as int] == m.found@[k as int].model());
        let before = fill_result(m.found[k].before.as_str(), result);
        let script = script_of_segment(&m.found[k].groups);
        let answer = eval_js_url(script.as_str(), before.as_str(), a.key, a.page, a.source, a.base, host);
        proof {
            lemma_offline_on(old(host).log(), log1, host.log());
        }
        match answer {
            Ok(t) => {
                result = t;
                proof {
                    assert forall|o: Oracle| #[trigger] agrees(host.log(), o) implies segments_from(all, 0, rule@, av, w0, o)
                        == segments_from(all, k + 1, result@, av, host.world(), o) by {
                        assert(agrees(log1, o));
                        assert(segments_from(all, k as int, given, av, w1, o) == segments_from(
                            all,
                            k + 1,
                            result@,
                            av,
                            host.world(),
                            o,
                        ));
                    }
                }
            },
            Err(e) => {
                let text = concat("URL JavaScript failed: ", e.as_str());
                proof {
                    assert forall|o: Oracle| #[trigger] agrees(host.log(), o) implies segments_from(all, 0, rule@, av, w0, o) == (
                        Err::<Seq<char>, Seq<char>>(text@),
                        host.world(),
                    ) by {
                        assert(agrees(log1, o));
                    }
                }
                return Err(text);
            },
        }
        k = k + 1;
    }
    assert(all.found.len() == m.found.len());
    Ok(fill_result(m.tail.as_str(), result))
}

/// A rule with its templates `{{..}}` from `i` on replaced by the values of
/// their scripts.
pub open spec fn url_templates_from(rule: Seq<char>, i: int, a: UrlAskV, w: World, o: Oracle) -> (
    Result<Seq<char>, Seq<char>>,
    World,
)
    decreases rule.len() - i,
{
    match find_from(rule, "{{"@, i) {
        Some(s) => match find_from(rule, "}}"@, s + 2) {
            Some(e) => if 0 <= i <= s && s + 2 <= e && e + 2 <= rule.len() {
                let got = called(
                    url_call(
                        trim_of(rule.subrange(s + 2, e)),
                        rule,
                        a.key,
                        a.page,
                        a.source,
                        a.base,
                        None,
                        true,
                    ),
                    w,
                    o,
                );
                match got.0 {
                    Ok(t) => {
                        let rest = url_templates_from(rule, e + 2, a, got.1, o);
                        (prepended(rule.subrange(i, s) + t, rest.0), rest.1)
                    },
                    Err(x) => (Err("URL template JavaScript failed: "@ + x), got.1),
                }
            } else {
                (Ok(rule.subrange(i, rule.len() as int)), w)
            },
            None => (Ok(rule.subrange(i, rule.len() as int)), w),
        },
        None => (Ok(rule.subrange(i, rule.len() as int)), w),
    }
}

pub open spec fn prepended(head: Seq<char>, rest: Result<Seq<char>, Seq<char>>) -> Result<Seq<char>, Seq<char>> {
    match rest {
        Ok(t) => Ok(head + t),
        Err(e) => Err(e),
    }
}

proof fn lemma_prepended(a: Seq<char>, b: Seq<char>, rest: Result<Seq<char>, Seq<char>>)
    ensures
        prepended(a, prepended(b, rest)) == prepended(a + b, rest),
{
    match rest {
        Ok(t) => {
            assert(a + (b + t) =~= a + b + t);
        },
        Err(_) => {},
    }
}

pub fn expand_url_templates<E: ScriptEngine>(rule: &str, a: UrlAsk, host: &mut Host<E>) -> (r: Result<String, String>)
    ensures
        offline(old(host).log(), final(host).log()),
        forall|o: Oracle| #[trigger]
            agrees(final(host).log(), o) ==> url_templates_from(rule@, 0, a.model(), old(host).world(), o) == (
                result_text(r),
                final(host).world(),
            ),
{
    broadcast use group_log;

    let v = chars_of(rule);
    let open = chars_of("{{");
    let close = chars_of("}}");
    proof {
        reveal_strlit("{{");
        reveal_strlit("}}");
    }
    let ghost av = a.model();
    let ghost w0 = host.world();
    let mut out = String::new();
    let mut i: usize = 0;
    assert forall|o: Oracle| #[trigger] agrees(host.log(), o) implies url_templates_from(rule@, 0, av, w0, o)
        == template_joined(out@, url_templates_from(rule@, 0, av, host.world(), o)) by {
        let rest = url_templates_from(rule@, 0, av, host.world(), o);
        assert(rest.0 is Ok ==> out@ + rest.0->Ok_0 =~= rest.0->Ok_0);
    }
    loop
        invariant
            v@ == rule@,
            open@ == "{{"@,
            open.len() == 2,
            close@ == "}}"@,
            close.len() == 2,
            i <= v.len(),
            av == a.model(),
            w0 == old(host).world(),
            offline(old(host).log(), host.log()),
            forall|o: Oracle| #[trigger]
                agrees(host.log(), o) ==> url_templates_from(rule@, 0, av, w0, o) == template_joined(
                    out@,
                    url_templates_from(rule@, i as int, av, host.world(), o),
                ),
        decreases v.len() - i,
    {
        let ghost log1 = host.log();
        let ghost w1 = host.world();
        let ghost done = out@;
        let mut mark: Option<(usize, usize)> = None;
        if let Some(s) = chars_find(&v, &open, i) {
            if let Some(e) = chars_find(&v, &close, s + 2) {
                mark = Some((s, e));
            }
        }
        let (s, e) = match mark {
            Some(x) => x,
            None => {
                out.append(string_range(&v, i, v.len()).as_str());
                return Ok(out);
            },
        };
        out.append(string_range(&v, i, s).as_str());
        let expr = trim(string_range(&v, s + 2, e).as_str());
        let answer = eval_js_url_template(expr.as_str(), rule, a.key, a.page, a.source, a.base, host);
        proof {
            lemma_offline_on(old(host).log(), log1, host.log());
        }
        match answer {
            Ok(t) => {
                out.append(t.as_str());
                proof {
                    let piece = rule@.subrange(i as int, s as int) + t@;
                    assert(out@ =~= done + piece);
                    assert forall|o: Oracle| #[trigger] agrees(host.log(), o) implies url_templates_from(rule@, 0, av, w0, o)
                        == template_joined(out@, url_templates_from(rule@, e + 2, av, host.world(), o)) by {
                        assert(agrees(log1, o));
                        let rest = url_templates_from(rule@, e + 2, av, host.world(), o);
                        assert(url_templates_from(rule@, i as int, av, w1, o) == (prepended(piece, rest.0), rest.1));
                        lemma_prepended(done, piece, rest.0);
                    }
                }
            },
            Err(x) => {
                let text = concat("URL template JavaScript failed: ", x.as_str());
                proof {
                    assert forall|o: Oracle| #[trigger] agrees(host.log(), o) implies url_templates_from(rule@, 0, av, w0, o)
                        == (Err::<Seq<char>, Seq<char>>(text@), host.world()) by {
                        assert(agrees(log1, o));
                    }
                }
                return Err(text);
            },
        }
        i = e + 2;
    }
}

pub open spec fn template_joined(head: Seq<char>, rest: (Result<Seq<char>, Seq<char>>, World)) -> (
    Result<Seq<char>, Seq<char>>,
    World,
) {
    (prepended(head, rest.0), rest.1)
}

/// The headers that a source sets for all of its requests, by text or by script.
pub open spec fn headers_of_source(source: BookSource, w: World, o: Oracle) -> (
    Result<Seq<(Seq<char>, Seq<char>)>, Seq<char>>,
    World,
) {
    let raw = or_blank(opt_text(source.header));
    if trim_of(raw).len() == 0 {
        (Ok(seq![]), w)
    } else {
        match marked_script(trim_of(raw)) {
            Some(script) => {
                let got = called(page_call(script, ""@, source.book_source_url@, None, false), w, o);
                match got.0 {
                    Ok(t) => (Ok(headers_of(t)), got.1),
                    Err(e) => (Err("source header JavaScript failed: "@ + e), got.1),
                }
            },
            None => (Ok(headers_of(raw)), w),
        }
    }
}

pub open spec fn headers_result(r: Result<Vec<(String, String)>, String>) -> Result<
    Seq<(Seq<char>, Seq<char>)>,
    Seq<char>,
> {
    match r {
        Ok(h) => Ok(pairs(h@)),
        Err(e) => Err(e@),
    }
}

pub fn source_headers<E: ScriptEngine>(source: &BookSource, host: &mut Host<E>) -> (r: Result<Vec<(String, String)>, String>)
    ensures
        offline(old(host).log(), final(host).log()),
        forall|o: Oracle| #[trigger]
            agrees(final(host).log(), o) ==> headers_of_source(*source, old(host).world(), o) == (
                headers_result(r),
                final(host).world(),
            ),
{
    broadcast use group_log;

    let raw = match &source.header {
        Some(h) => h.clone(),
        None => text_or_blank(None),
    };
    let t = trim(raw.as_str());
    if is_empty_text(t.as_str()) {
        let r: Vec<(String, String)> = Vec::new();
        assert(pairs(r@) =~= seq![]);
        return Ok(r);
    }
    match strip_js_prefix(t.as_str()) {
        Some(script) => match eval_js(script.as_str(), "", source.book_source_url.as_str(), host) {
            Ok(text) => Ok(parse_source_headers(text.as_str())),
            Err(e) => Err(concat("source header JavaScript failed: ", e.as_str())),
        },
        None => Ok(parse_source_headers(raw.as_str())),
    }
}

/// The headers of a request before its options are read, and its proxy: those
/// that are given, then those that a login left, and a user agent.
pub open spec fn completed_headers(
    got: (Result<Seq<(Seq<char>, Seq<char>)>, Seq<char>>, World),
    o: Oracle,
) -> (Result<(Seq<(Seq<char>, Seq<char>)>, Option<Seq<char>>), Seq<char>>, World) {
    match got.0 {
        Ok(h) => {
            let own = without_proxy(h, h.len() as int);
            let all = match session_header(got.1.state) {
                Some(v) => merged_headers(own, value_headers(v), value_headers(v).len() as int),
                None => own,
            };
            (Ok((with_user_agent(all), filled_option(proxy_of(h, h.len() as int)))), got.1)
        },
        Err(e) => (Err(e), got.1),
    }
}

/// The headers that a request starts from: those that are given for it, else
/// those of the source.
pub open spec fn given_headers(given: Option<Seq<(Seq<char>, Seq<char>)>>, source: BookSource, w: World, o: Oracle) -> (
    Result<Seq<(Seq<char>, Seq<char>)>, Seq<char>>,
    World,
) {
    match given {
        Some(h) => (Ok(h), w),
        None => headers_of_source(source, w, o),
    }
}

/// The headers of a request of a source before its options are read, and its proxy.
pub open spec fn base_headers(given: Option<Seq<(Seq<char>, Seq<char>)>>, source: BookSource, w: World, o: Oracle) -> (
    Result<(Seq<(Seq<char>, Seq<char>)>, Option<Seq<char>>), Seq<char>>,
    World,
) {
    completed_headers(given_headers(given, source, w, o), o)
}

pub open spec fn opt_pairs(o: Option<Vec<(String, String)>>) -> Option<Seq<(Seq<char>, Seq<char>)>> {
    match o {
        Some(v) => Some(pairs(v@)),
        None => None,
    }
}

/// A text that is not blank.
pub open spec fn filled_option(o: Option<Seq<char>>) -> Option<Seq<char>> {
    match o {
        Some(t) => if trim_of(t).len() == 0 {
            None
        } else {
            Some(t)
        },
        None => None,
    }
}

pub fn keep_filled(o: Option<String>) -> (r: Option<String>)
    ensures
        opt_text(r) == filled_option(opt_text(o)),
{
    match o {
        Some(t) => if is_empty_text(trim(t.as_str()).as_str()) {
            None
        } else {
            Some(t)
        },
        None => None,
    }
}

pub open spec fn base_result(r: Result<(Vec<(String, String)>, Option<String>), String>) -> Result<
    (Seq<(Seq<char>, Seq<char>)>, Option<Seq<char>>),
    Seq<char>,
> {
    match r {
        Ok(x) => Ok((pairs(x.0@), opt_text(x.1))),
        Err(e) => Err(e@),
    }
}

pub fn collect_base_headers<E: ScriptEngine>(
    explicit: Option<Vec<(String, String)>>,
    source: &BookSource,
    host: &mut Host<E>,
) -> (r: Result<
    (Vec<(String, String)>, Option<String>),
    String,
>)
    ensures
        offline(old(host).log(), final(host).log()),
        forall|o: Oracle| #[trigger]
            agrees(final(host).log(), o) ==> base_headers(opt_pairs(explicit), *source, old(host).world(), o) == (
                base_result(r),
                final(host).world(),
            ),
{
    broadcast use group_log;

    let ghost w0 = host.world();
    let ghost asked = opt_pairs(explicit);
    let given = match explicit {
        Some(h) => h,
        None => match source_headers(source, host) {
            Ok(h) => h,
            Err(e) => {
                return Err(e);
            },
        },
    };
    let ghost log1 = host.log();
    assert(pairs(given@).len() == given.len());
    let (mut headers, proxy) = take_proxy_header(&given);
    let proxy = keep_filled(proxy);
    if let Some(login) = host.get_login_header() {
        let extra = headers_from_value(&login);
        assert(pairs(extra@).len() == extra.len());
        merge_headers(&mut headers, &extra);
    }
    ensure_user_agent(&mut headers);
    proof {
        lemma_offline_on(old(host).log(), log1, host.log());
        assert forall|o: Oracle| #[trigger] agrees(host.log(), o) implies base_headers(asked, *source, w0, o) == (
            Ok::<_, Seq<char>>((pairs(headers@), opt_text(proxy))),
            host.world(),
        ) by {
            assert(agrees(log1, o));
        }
    }
    Ok((headers, proxy))
}

/// A URL rule with its scripts, templates, placeholders and page choices done.
pub open spec fn final_rule(rule: Seq<char>, a: UrlAskV, w: World, o: Oracle) -> (Result<Seq<char>, Seq<char>>, World) {
    let run = scripts_run(rule, a, w, o);
    match run.0 {
        Ok(t) => {
            let filled = url_templates_from(t, 0, a, run.1, o);
            (
                match filled.0 {
                    Ok(u) => Ok(
                        choices_before_options(placeholders_filled(u, a.key, a.page as int), a.page as int),
                    ),
                    Err(e) => Err(e),
                },
                filled.1,
            )
        },
        Err(e) => (Err(e), run.1),
    }
}

pub fn expand_rule<E: ScriptEngine>(rule: &str, a: UrlAsk, host: &mut Host<E>) -> (r: Result<String, String>)
    ensures
        offline(old(host).log(), final(host).log()),
        forall|o: Oracle| #[trigger]
            agrees(final(host).log(), o) ==> final_rule(rule@, a.model(), old(host).world(), o) == (
                result_text(r),
                final(host).world(),
            ),
{
    broadcast use group_log;

    let ghost w0 = host.world();
    let run = match eval_url_rule_js_segments(rule, a, host) {
        Ok(t) => t,
        Err(e) => {
            return Err(e);
        },
    };
    let ghost log1 = host.log();
    let answer = expand_url_templates(run.as_str(), a, host);
    let r = match answer {
        Ok(u) => {
            let t = replace_legacy_placeholders(u.as_str(), a.key, a.page);
            Ok(replace_page_choices_before_options(t.as_str(), a.page))
        },
        Err(e) => Err(e),
    };
    proof {
        lemma_offline_on(old(host).log(), log1, host.log());
        assert forall|o: Oracle| #[trigger] agrees(host.log(), o) implies final_rule(rule@, a.model(), w0, o) == (
            result_text(r),
            host.world(),
        ) by {
            assert(agrees(log1, o));
        }
    }
    r
}

/// An option that is a text and not blank.
pub open spec fn text_option(options: JsonV, name: Seq<char>) -> Option<Seq<char>> {
    match member_of(options, name) {
        Some(JsonV::Text(t)) => filled_option(Some(t)),
        _ => None,
    }
}

pub fn option_text(options: &Json, name: &str) -> (r: Option<String>)
    ensures
        opt_text(r) == text_option(options.model(), name@),
{
    broadcast use {lemma_array_model, lemma_object_model};

    match options.get(name) {
        Some(Json::Text(t)) => keep_filled(Some(t.clone())),
        _ => None,
    }
}

/// How often a request is tried again: at most three times.
pub open spec fn retry_option(options: JsonV) -> int {
    let n = match member_of(options, "retry"@) {
        Some(JsonV::Number(t)) => within(digits_of(t), 0, u64::MAX as int),
        Some(JsonV::Text(t)) => within(unsigned_of(t), 0, u64::MAX as int),
        _ => None,
    };
    match n {
        Some(k) => if k < 3 {
            k
        } else {
            3
        },
        None => 0,
    }
}

pub fn option_retry(options: &Json) -> (r: usize)
    ensures
        r == retry_option(options.model()),
        r <= 3,
{
    broadcast use {lemma_array_model, lemma_object_model};

    let max: u64 = 18446744073709551615;
    let n: Option<u64> = match options.get("retry") {
        Some(Json::Number(t)) => {
            let text = t.to_text();
            if starts_with(text.as_str(), "+") {
                proof {
                    reveal_strlit("+");
                    assert(text@.subrange(0, 1)[0] == '+');
                    assert(!is_digit(text@[0]));
                }
                None
            } else {
                proof {
                    reveal_strlit("+");
                    if text@.len() > 0 && text@[0] == '+' {
                        assert(text@.subrange(0, 1) =~= "+"@);
                    }
                }
                parse_unsigned(text.as_str(), max)
            }
        },
        Some(Json::Text(t)) => parse_unsigned(t.as_str(), max),
        _ => None,
    };
    match n {
        Some(k) => if k < 3 {
            k as usize
        } else {
            3
        },
        None => 0,
    }
}

pub open spec fn method_option(options: JsonV) -> Method {
    match member_of(options, "method"@) {
        Some(JsonV::Text(t)) => if same_name(trim_of(t), "POST"@) {
            Method::Post
        } else {
            Method::Get
        },
        _ => Method::Get,
    }
}

pub fn option_method(options: &Json) -> (r: Method)
    ensures
        r == method_option(options.model()),
{
    broadcast use {lemma_array_model, lemma_object_model};

    match options.get("method") {
        Some(Json::Text(t)) => if eq_ignore_ascii_case(trim(t.as_str()).as_str(), "POST") {
            Method::Post
        } else {
            Method::Get
        },
        _ => Method::Get,
    }
}

pub open spec fn body_option(options: JsonV) -> Option<Seq<char>> {
    match member_of(options, "body"@) {
        Some(v) => plain_text(v),
        None => None,
    }
}

pub fn option_body(options: &Json) -> (r: Option<String>)
    ensures
        opt_text(r) == body_option(options.model()),
{
    match options.get("body") {
        Some(v) => value_to_string(v),
        None => None,
    }
}

pub open spec fn opt_trimmed(o: Option<Seq<char>>) -> Option<Seq<char>> {
    match o {
        Some(t) => Some(trim_of(t)),
        None => None,
    }
}

/// The request for an address with the options of its rule.
pub open spec fn request_with(
    url: Seq<char>,
    options: JsonV,
    h: Seq<(Seq<char>, Seq<char>)>,
    proxy: Option<Seq<char>>,
) -> RequestV {
    let merged = match member_of(options, "headers"@) {
        Some(v) => merged_headers(h, value_headers(v), value_headers(v).len() as int),
        None => h,
    };
    let method = method_option(options);
    let charset = opt_trimmed(text_option(options, "charset"@));
    let prepared = prepared_body(
        method == Method::Post,
        body_option(options),
        with_user_agent(merged),
        charset,
    );
    RequestV {
        url: encoded_query(url, charset),
        method,
        headers: prepared.1,
        body: prepared.0,
        charset,
        retry: retry_option(options),
        proxy: match text_option(options, "proxy"@) {
            Some(p) => Some(p),
            None => proxy,
        },
        response_type: text_option(options, "type"@),
    }
}

fn opt_ref(o: &Option<String>) -> (r: Option<&str>)
    ensures
        opt_str(r) == opt_text(*o),
{
    match o {
        Some(s) => Some(s.as_str()),
        None => None,
    }
}

pub fn build_request(url: &str, options: &Json, headers: Vec<(String, String)>, proxy: Option<String>) -> (r: RequestSpec)
    ensures
        r.model() == request_with(url@, options.model(), pairs(headers@), opt_text(proxy)),
{
    let mut headers = headers;
    if let Some(v) = options.get("headers") {
        let extra = headers_from_value(v);
        assert(pairs(extra@).len() == extra.len());
        merge_headers(&mut headers, &extra);
    }
    let proxy = match option_text(options, "proxy") {
        Some(p) => Some(p),
        None => proxy,
    };
    ensure_user_agent(&mut headers);
    let method = option_method(options);
    let charset = match option_text(options, "charset") {
        Some(c) => Some(trim(c.as_str())),
        None => None,
    };
    let body = prepare_request_body(
        method == Method::Post,
        option_body(options),
        &mut headers,
        opt_ref(&charset),
    );
    RequestSpec {
        url: encode_get_query(url, opt_ref(&charset)),
        method,
        headers,
        body,
        charset,
        retry: option_retry(options),
        proxy,
        response_type: option_text(options, "type"),
    }
}

/// The address of a rule, after the script of its options has rewritten it.
pub open spec fn rule_address(url_part: Seq<char>, options: JsonV, a: UrlAskV, w: World, o: Oracle) -> (
    Result<Seq<char>, Seq<char>>,
    World,
) {
    let url = absolute_of(a.base, trim_of(url_part));
    let rewritten = match text_option(options, "js"@) {
        Some(script) => {
            let got = called(url_call(script, url, a.key, a.page, a.source, a.base, None, false), w, o);
            (
                match got.0 {
                    Ok(t) => Ok(absolute_of(a.base, t)),
                    Err(e) => Err("URL option JavaScript failed: "@ + e),
                },
                got.1,
            )
        },
        None => (Ok(url), w),
    };
    match rewritten.0 {
        Ok(u) => (
            match url_fault(u) {
                Some(e) => Err(e),
                None => Ok(u),
            },
            rewritten.1,
        ),
        Err(e) => (Err(e), rewritten.1),
    }
}

pub fn resolve_address<E: ScriptEngine>(url_part: &str, options: &Json, a: UrlAsk, host: &mut Host<E>) -> (r: Result<
    String,
    String,
>)
    ensures
        offline(old(host).log(), final(host).log()),
        forall|o: Oracle| #[trigger]
            agrees(final(host).log(), o) ==> rule_address(
                url_part@,
                options.model(),
                a.model(),
                old(host).world(),
                o,
            ) == (result_text(r), final(host).world()),
{
    broadcast use group_log;

    let mut url = absolute_url(a.base, trim(url_part).as_str());
    if let Some(script) = option_text(options, "js") {
        match eval_js_url(script.as_str(), url.as_str(), a.key, a.page, a.source, a.base, host) {
            Ok(t) => {
                url = absolute_url(a.base, t.as_str());
            },
            Err(e) => {
                return Err(concat("URL option JavaScript failed: ", e.as_str()));
            },
        }
    }
    match validate_http_url(url.as_str()) {
        Some(e) => Err(e),
        None => Ok(url),
    }
}

pub open spec fn options_or_none(text: Option<Seq<char>>) -> Result<JsonV, Seq<char>> {
    match text {
        Some(t) => options_of(t),
        None => Ok(JsonV::Null),
    }
}

/// The request that a URL rule of a source stands for.
pub open spec fn compiled_request(
    given: Option<Seq<(Seq<char>, Seq<char>)>>,
    raw: Seq<char>,
    key: Seq<char>,
    page: i32,
    base_url: Seq<char>,
    source: BookSource,
    w: World,
    o: Oracle,
) -> (Result<RequestV, Seq<char>>, World) {
    let rule = trim_of(raw);
    let a = UrlAskV {
        key,
        page,
        source: source.book_source_url@,
        base: trim_of(options_split(base_url).0),
    };
    if rule.len() == 0 {
        (Err("URL rule is empty"@), w)
    } else {
        let h = base_headers(given, source, w, o);
        match h.0 {
            Ok((headers, proxy)) => {
                let f = final_rule(rule, a, h.1, o);
                match f.0 {
                    Ok(text) => {
                        let s = options_split(text);
                        match options_or_none(s.1) {
                            Ok(options) => {
                                let u = rule_address(s.0, options, a, f.1, o);
                                (
                                    match u.0 {
                                        Ok(url) => Ok(request_with(url, options, headers, proxy)),
                                        Err(e) => Err(e),
                                    },
                                    u.1,
                                )
                            },
                            Err(e) => (Err(e), f.1),
                        }
                    },
                    Err(e) => (Err(e), f.1),
                }
            },
            Err(e) => (Err(e), h.1),
        }
    }
}

pub open spec fn request_result(r: Result<RequestSpec, String>) -> Result<RequestV, Seq<char>> {
    match r {
        Ok(x) => Ok(x.model()),
        Err(e) => Err(e@),
    }
}

pub fn compile_url_request<E: ScriptEngine>(
    explicit: Option<Vec<(String, String)>>,
    raw_rule: &str,
    key: &str,
    page: i32,
    base_url: &str,
    source: &BookSource,
    host: &mut Host<E>,
) -> (r: Result<RequestSpec, String>)
    ensures
        offline(old(host).log(), final(host).log()),
        forall|o: Oracle| #[trigger]
            agrees(final(host).log(), o) ==> compiled_request(
                opt_pairs(explicit),
                raw_rule@,
                key@,
                page,
                base_url@,
                *source,
                old(host).world(),
                o,
            ) == (request_result(r), final(host).world()),
{
    broadcast use group_log;

    let ghost w0 = host.world();
    let rule = trim(raw_rule);
    if is_empty_text(rule.as_str()) {
        return Err("URL rule is empty".to_owned());
    }
    let ghost asked = opt_pairs(explicit);
    let (headers, proxy) = match collect_base_headers(explicit, source, host) {
        Ok(x) => x,
        Err(e) => {
            return Err(e);
        },
    };
    let ghost log1 = host.log();
    let (before_options, _) = split_url_options(base_url);
    let base = trim(before_options.as_str());
    let a = UrlAsk { key, page, source: source.book_source_url.as_str(), base: base.as_str() };
    let answer = expand_rule(rule.as_str(), a, host);
    let ghost log2 = host.log();
    proof {
        lemma_offline_on(old(host).log(), log1, log2);
    }
    let text = match answer {
        Ok(t) => t,
        Err(e) => {
            proof {
                assert forall|o: Oracle| #[trigger] agrees(host.log(), o) implies compiled_request(
                    asked,
                    raw_rule@,
                    key@,
                    page,
                    base_url@,
                    *source,
                    w0,
                    o,
                ) == (Err::<RequestV, Seq<char>>(e@), host.world()) by {
                    assert(agrees(log1, o));
                }
            }
            return Err(e);
        },
    };
    let (url_part, options_text) = split_url_options(text.as_str());
    let options = match options_text {
        Some(t) => match parse_url_options(t.as_str()) {
            Ok(v) => v,
            Err(e) => {
                proof {
                    assert forall|o: Oracle| #[trigger] agrees(host.log(), o) implies compiled_request(
                        asked,
                        raw_rule@,
                        key@,
                        page,
                        base_url@,
                        *source,
                        w0,
                        o,
                    ) == (Err::<RequestV, Seq<char>>(e@), host.world()) by {
                        assert(agrees(log1, o));
                    }
                }
                return Err(e);
            },
        },
        None => Json::Null,
    };
    let found = resolve_address(url_part.as_str(), &options, a, host);
    let r = match found {
        Ok(url) => Ok(build_request(url.as_str(), &options, headers, proxy)),
        Err(e) => Err(e),
    };
    proof {
        lemma_offline_on(old(host).log(), log2, host.log());
        assert forall|o: Oracle| #[trigger] agrees(host.log(), o) implies compiled_request(
            asked,
            raw_rule@,
            key@,
            page,
            base_url@,
            *source,
            w0,
            o,
        ) == (request_result(r), host.world()) by {
            assert(agrees(log2, o));
            assert(agrees(log1, o));
        }
    }
    r
}

/// Compiles a URL rule to a request. Rules hold scripts, templates `{{..}}`,
/// the placeholders of the key and the page, page choices `<a,b>`, relative
/// addresses, and JSON options after a comma.
pub fn analyze_url<E: ScriptEngine>(
    raw_rule: &str,
    key: &str,
    page: i32,
    base_url: &str,
    source: &BookSource,
    host: &mut Host<E>,
) -> (r: Result<RequestSpec, String>)
    ensures
        offline(old(host).log(), final(host).log()),
        forall|o: Oracle| #[trigger]
            agrees(final(host).log(), o) ==> analyzed(
                None,
                raw_rule@,
                key@,
                page,
                base_url@,
                *source,
                old(host).world(),
                o,
            ) == (request_result(r), final(host).world()),
{
    analyze_url_with_headers(raw_rule, key, page, base_url, source, None, host)
}

/// The request that a URL rule stands for, with the script library of its source in use.
pub open spec fn analyzed(
    given: Option<Seq<(Seq<char>, Seq<char>)>>,
    raw: Seq<char>,
    key: Seq<char>,
    page: i32,
    base_url: Seq<char>,
    source: BookSource,
    w: World,
    o: Oracle,
) -> (Result<RequestV, Seq<char>>, World) {
    lib_restored(
        compiled_request(given, raw, key, page, base_url, source, with_lib(w, opt_text(source.js_lib)), o),
        w,
    )
}

/// Compiles a URL rule to a request that starts from headers of its own, where
/// there are any, in place of those of the source.
pub fn analyze_url_with_headers<E: ScriptEngine>(
    raw_rule: &str,
    key: &str,
    page: i32,
    base_url: &str,
    source: &BookSource,
    explicit_headers: Option<Vec<(String, String)>>,
    host: &mut Host<E>,
) -> (r: Result<RequestSpec, String>)
    ensures
        offline(old(host).log(), final(host).log()),
        forall|o: Oracle| #[trigger]
            agrees(final(host).log(), o) ==> analyzed(
                opt_pairs(explicit_headers),
                raw_rule@,
                key@,
                page,
                base_url@,
                *source,
                old(host).world(),
                o,
            ) == (request_result(r), final(host).world()),
{
    broadcast use group_log;

    let saved = host.use_lib(opt_ref(&source.js_lib));
    let r = compile_url_request(explicit_headers, raw_rule, key, page, base_url, source, host);
    let _ = host.swap_lib(saved);
    r
}

proof fn lemma_header_set(h: Seq<(Seq<char>, Seq<char>)>, name: Seq<char>, value: Seq<char>, k: int, other: Seq<char>)
    requires
        0 <= k <= h.len(),
        !same_name(name, other),
    ensures
        has_header(with_header(h, name, value, k), other) == has_header(h, other),
    decreases h.len() - k,
{
    let r = with_header(h, name, value, k);
    if k < h.len() && !same_name(h[k].0, name) {
        lemma_header_set(h, name, value, k + 1, other);
    } else {
        if has_header(h, other) {
            let i = choose|i: int| 0 <= i < h.len() && same_name((#[trigger] h[i]).0, other);
            assert(same_name(r[i].0, other));
        }
        if has_header(r, other) {
            let i = choose|i: int| 0 <= i < r.len() && same_name((#[trigger] r[i]).0, other);
            assert(i < h.len() && same_name(h[i].0, other));
        }
    }
}

proof fn lemma_merged_no_proxy(h: Seq<(Seq<char>, Seq<char>)>, extra: Seq<(Seq<char>, Seq<char>)>, n: int)
    requires
        0 <= n <= extra.len(),
        !has_header(h, "proxy"@),
    ensures
        !has_header(merged_headers(h, extra, n), "proxy"@),
    decreases n,
{
    if n > 0 {
        lemma_merged_no_proxy(h, extra, n - 1);
        if !same_name(extra[n - 1].0, "proxy"@) {
            lemma_header_set(merged_headers(h, extra, n - 1), extra[n - 1].0, extra[n - 1].1, 0, "proxy"@);
        }
    }
}

proof fn lemma_proxy_taken(h: Seq<(Seq<char>, Seq<char>)>, n: int)
    requires
        0 <= n <= h.len(),
    ensures
        !has_header(without_proxy(h, n), "proxy"@),
    decreases n,
{
    if n > 0 {
        lemma_proxy_taken(h, n - 1);
        let before = without_proxy(h, n - 1);
        let now = without_proxy(h, n);
        if has_header(now, "proxy"@) {
            let i = choose|i: int| 0 <= i < now.len() && same_name((#[trigger] now[i]).0, "proxy"@);
            if i < before.len() {
                assert(same_name(before[i].0, "proxy"@));
            }
        }
    }
}

proof fn lemma_pushed_header(h: Seq<(Seq<char>, Seq<char>)>, name: Seq<char>, value: Seq<char>, other: Seq<char>)
    requires
        !same_name(name, other),
    ensures
        has_header(h.push((name, value)), other) == has_header(h, other),
{
    lemma_header_set(h, name, value, h.len() as int, other);
}

proof fn lemma_header_names()
    ensures
        !same_name("User-Agent"@, "proxy"@),
        !same_name("content-type"@, "proxy"@),
        !same_name("content-type"@, "user-agent"@),
{
    reveal_strlit("User-Agent");
    reveal_strlit("user-agent");
    reveal_strlit("proxy");
    reveal_strlit("content-type");
    assert(lower_ascii_of("User-Agent"@).len() == 10 && lower_ascii_of("proxy"@).len() == 5);
    assert(lower_ascii_of("content-type"@).len() == 12 && lower_ascii_of("user-agent"@).len() == 10);
}

/// Every request names a user agent, and never sends the proxy of its source or
/// its options as a header.
pub proof fn law_request_headers(
    given: Option<Seq<(Seq<char>, Seq<char>)>>,
    raw: Seq<char>,
    key: Seq<char>,
    page: i32,
    base_url: Seq<char>,
    source: BookSource,
    w: World,
    o: Oracle,
)
    requires
        compiled_request(given, raw, key, page, base_url, source, w, o).0 is Ok,
    ensures
        has_header(compiled_request(given, raw, key, page, base_url, source, w, o).0->Ok_0.headers, "user-agent"@),
        !has_header(compiled_request(given, raw, key, page, base_url, source, w, o).0->Ok_0.headers, "proxy"@),
{
    lemma_header_names();
    let got = given_headers(given, source, w, o);
    let h = got.0->Ok_0;
    let own = without_proxy(h, h.len() as int);
    lemma_proxy_taken(h, h.len() as int);
    let all = match session_header(got.1.state) {
        Some(v) => merged_headers(own, value_headers(v), value_headers(v).len() as int),
        None => own,
    };
    if session_header(got.1.state) is Some {
        let extra = value_headers(session_header(got.1.state)->0);
        lemma_merged_no_proxy(own, extra, extra.len() as int);
    }
    lemma_pushed_header(all, "User-Agent"@, default_user_agent(), "proxy"@);
    let base = with_user_agent(all);
    assert(!has_header(base, "proxy"@));
    let b = base_headers(given, source, w, o);
    let a = UrlAskV { key, page, source: source.book_source_url@, base: trim_of(options_split(base_url).0) };
    let f = final_rule(trim_of(raw), a, b.1, o);
    let options = options_or_none(options_split(f.0->Ok_0).1)->Ok_0;
    let merged = match member_of(options, "headers"@) {
        Some(v) => merged_headers(base, value_headers(v), value_headers(v).len() as int),
        None => base,
    };
    if member_of(options, "headers"@) is Some {
        let extra = value_headers(member_of(options, "headers"@)->0);
        lemma_merged_no_proxy(base, extra, extra.len() as int);
    }
    lemma_user_agent_set(merged);
    lemma_pushed_header(merged, "User-Agent"@, default_user_agent(), "proxy"@);
    let full = with_user_agent(merged);
    lemma_pushed_header(full, "content-type"@, "application/json"@, "proxy"@);
    lemma_pushed_header(full, "content-type"@, "application/xml"@, "proxy"@);
    lemma_pushed_header(full, "content-type"@, "application/x-www-form-urlencoded"@, "proxy"@);
    lemma_pushed_header(full, "content-type"@, "application/json"@, "user-agent"@);
    lemma_pushed_header(full, "content-type"@, "application/xml"@, "user-agent"@);
    lemma_pushed_header(full, "content-type"@, "application/x-www-form-urlencoded"@, "user-agent"@);
}

} // verus!
