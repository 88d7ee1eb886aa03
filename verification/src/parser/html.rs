//! Selection in HTML documents: selector rules with index lists, chains of
//! selectors, extraction of values, and the conversion of markup to text.

use crate::ext::dom::{
    all_elements, attr_models, css_is_valid, css_matches, css_matches_under, css_select, css_select_under, css_valid,
    dom_of, inner_html, inner_html_of, ints, is_element, outer_html, outer_html_of, parse_document, Attr, AttrV,
    Document, Kind, KindV, NodeV,
};
use crate::parser::rule_analyzer::{
    interleave_result_groups, interleaved, lemma_parts_nonempty, lemma_parts_shorter, lists_of, split_delimiter,
    split_result, split_top_level, strs,
};
use crate::util::chars::{
    chars_of, chars_space_end, chars_word_end, concat, contains, contains_text, copy, ends_with, has_prefix,
    has_suffix, is_empty_text, join, join_of, opt_text, parse_i32, rfind, rfind_of, rsplit_once, rsplit_once_of, same,
    signed_of, space_end, split, split_of, split_whitespace, starts_with, string_of, string_range, strip_prefix,
    strip_prefix_of, strip_suffix, strip_suffix_of, texts, trim, trim_of, within, word_end, words_of,
};
use vstd::prelude::*;
use vstd::string::*;

verus! {

#[derive(Clone, Debug, PartialEq)]
pub enum SelectorBase {
    Css(String),
    Children,
    Text(String),
}

#[derive(Clone, Copy, Debug, PartialEq, Eq, Structural)]
pub enum IndexMode {
    Select,
    Exclude,
}

#[derive(Clone, Copy, Debug, PartialEq)]
pub enum IndexItem {
    Single(i32),
    Range { start: Option<i32>, end: Option<i32>, step: i32 },
}

#[derive(Clone, Debug, PartialEq)]
pub struct ParsedSelector {
    pub base: SelectorBase,
    pub explicit_index: bool,
    pub index_mode: IndexMode,
    pub index_items: Vec<IndexItem>,
}

pub enum BaseV {
    Css(Seq<char>),
    Children,
    Text(Seq<char>),
}

pub struct SelectorV {
    pub base: BaseV,
    pub explicit_index: bool,
    pub index_mode: IndexMode,
    pub index_items: Seq<IndexItem>,
}

impl SelectorBase {
    pub open spec fn model(self) -> BaseV {
        match self {
            SelectorBase::Css(s) => BaseV::Css(s@),
            SelectorBase::Children => BaseV::Children,
            SelectorBase::Text(s) => BaseV::Text(s@),
        }
    }
}

impl ParsedSelector {
    pub open spec fn model(self) -> SelectorV {
        SelectorV {
            base: self.base.model(),
            explicit_index: self.explicit_index,
            index_mode: self.index_mode,
            index_items: self.index_items@,
        }
    }
}

/// The CSS selector that a selector rule stands for: `class.a b` is `.a.b`,
/// `id.x` is `#x`, `tag.x` is `x`, and everything else is CSS already.
pub open spec fn css_of(selector: Seq<char>) -> Seq<char> {
    let s = trim_of(selector);
    if has_prefix(s, "class."@) {
        "."@ + join_of(words_of(s.subrange("class."@.len() as int, s.len() as int)), "."@)
    } else if has_prefix(s, "id."@) {
        "#"@ + s.subrange("id."@.len() as int, s.len() as int)
    } else if has_prefix(s, "tag."@) {
        s.subrange("tag."@.len() as int, s.len() as int)
    } else {
        s
    }
}

/// Converts a selector rule to a CSS selector. Descendant white space outside
/// the `class.` form is kept: `ul li` stays a descendant selector.
pub fn legado_to_css(selector: &str) -> (r: String)
    ensures
        r@ == css_of(selector@),
{
    let s = trim(selector);
    if let Some(rest) = strip_prefix(s.as_str(), "class.") {
        let words = split_whitespace(rest.as_str());
        return concat(".", join(&words, ".").as_str());
    }
    if let Some(rest) = strip_prefix(s.as_str(), "id.") {
        return concat("#", rest.as_str());
    }
    if let Some(rest) = strip_prefix(s.as_str(), "tag.") {
        return rest;
    }
    s
}

/// The position of the first `=` of `s[i..]` outside quotes.
pub open spec fn equals_from(s: Seq<char>, i: int, quote: Option<char>, escaped: bool) -> Option<int>
    decreases s.len() - i,
{
    if i < 0 || i >= s.len() {
        None
    } else {
        match quote {
            Some(q) => if escaped {
                equals_from(s, i + 1, quote, false)
            } else if s[i] == '\\' {
                equals_from(s, i + 1, quote, true)
            } else if s[i] == q {
                equals_from(s, i + 1, None, escaped)
            } else {
                equals_from(s, i + 1, quote, escaped)
            },
            None => if s[i] == '\'' || s[i] == '"' {
                equals_from(s, i + 1, Some(s[i]), escaped)
            } else if s[i] == '=' {
                Some(i)
            } else {
                equals_from(s, i + 1, quote, escaped)
            },
        }
    }
}

/// Whether a bare attribute value needs quotes: it holds a colon, and neither
/// an escape nor a quote.
pub open spec fn needs_quotes(v: Seq<char>) -> bool {
    v.contains(':') && !v.contains('\\') && !v.contains('\'') && !v.contains('"')
}

/// An attribute test with its bare value put in quotes, if it needs them.
pub open spec fn quoted_attribute(s: Seq<char>) -> Option<Seq<char>> {
    match equals_from(s, 0, None, false) {
        Some(e) => {
            let a = space_end(s, e + 1);
            let b = word_end(s, a);
            let value = s.subrange(a, b);
            if needs_quotes(value) {
                Some(s.subrange(0, a) + seq!['"'] + value + seq!['"'] + s.subrange(b, s.len() as int))
            } else {
                None
            }
        },
        None => None,
    }
}

pub fn find_equals(v: &Vec<char>) -> (r: Option<usize>)
    ensures
        match r {
            Some(k) => k < v.len() && equals_from(v@, 0, None, false) == Some(k as int),
            None => equals_from(v@, 0, None, false) is None,
        },
{
    let mut quote: Option<char> = None;
    let mut escaped = false;
    let mut i: usize = 0;
    while i < v.len()
        invariant
            i <= v.len(),
            equals_from(v@, 0, None, false) == equals_from(v@, i as int, quote, escaped),
        decreases v.len() - i,
    {
        let c = v[i];
        if let Some(q) = quote {
            if escaped {
                escaped = false;
            } else if c == '\\' {
                escaped = true;
            } else if c == q {
                quote = None;
            }
        } else if c == '\'' || c == '"' {
            quote = Some(c);
        } else if c == '=' {
            return Some(i);
        }
        i = i + 1;
    }
    None
}

fn value_needs_quotes(v: &Vec<char>, a: usize, b: usize) -> (r: bool)
    requires
        a <= b <= v.len(),
    ensures
        r == needs_quotes(v@.subrange(a as int, b as int)),
{
    let ghost s = v@.subrange(a as int, b as int);
    let mut colon = false;
    let mut i: usize = a;
    while i < b
        invariant
            a <= i <= b <= v.len(),
            s == v@.subrange(a as int, b as int),
            forall|k: int| 0 <= k < i - a ==> s[k] != '\\' && s[k] != '\'' && s[k] != '"',
            colon ==> s.contains(':'),
            !colon ==> forall|k: int| 0 <= k < i - a ==> s[k] != ':',
        decreases b - i,
    {
        let c = v[i];
        assert(c == s[i - a]);
        if c == '\\' || c == '\'' || c == '"' {
            assert(s.contains(c));
            return false;
        }
        if c == ':' {
            assert(s.contains(c));
            colon = true;
        }
        i = i + 1;
    }
    colon
}

pub fn quote_unquoted_colon_attribute_value(v: &Vec<char>) -> (r: Option<Vec<char>>)
    ensures
        match r {
            Some(x) => quoted_attribute(v@) == Some(x@),
            None => quoted_attribute(v@) is None,
        },
{
    let e = match find_equals(v) {
        Some(e) => e,
        None => {
            return None;
        },
    };
    let a = chars_space_end(v, e + 1);
    let b = chars_word_end(v, a);
    if !value_needs_quotes(v, a, b) {
        return None;
    }
    let mut out: Vec<char> = Vec::new();
    push_range(&mut out, v, 0, a);
    out.push('"');
    push_range(&mut out, v, a, b);
    out.push('"');
    push_range(&mut out, v, b, v.len());
    assert(out@ =~= v@.subrange(0, a as int) + seq!['"'] + v@.subrange(a as int, b as int) + seq!['"'] + v@.subrange(
        b as int,
        v.len() as int,
    ));
    Some(out)
}

fn push_range(out: &mut Vec<char>, v: &Vec<char>, i: usize, j: usize)
    requires
        i <= j <= v.len(),
    ensures
        final(out)@ == old(out)@ + v@.subrange(i as int, j as int),
{
    let ghost base = out@;
    let mut k: usize = i;
    while k < j
        invariant
            i <= k <= j <= v.len(),
            out@ =~= base + v@.subrange(i as int, k as int),
        decreases j - k,
    {
        out.push(v[k]);
        k = k + 1;
    }
}

/// What the pass over a selector remembers: the output so far, how much of the
/// selector it covers, the open bracket, the open quote, and the escape.
pub struct QuotePass {
    pub out: Seq<char>,
    pub copied: int,
    pub bracket: Option<int>,
    pub quote: Option<char>,
    pub escaped: bool,
    pub changed: bool,
}

pub open spec fn quote_step(s: Seq<char>, p: QuotePass, i: int) -> QuotePass {
    let c = s[i];
    if p.quote is Some {
        if p.escaped {
            QuotePass { escaped: false, ..p }
        } else if c == '\\' {
            QuotePass { escaped: true, ..p }
        } else if c == p.quote->0 {
            QuotePass { quote: None, ..p }
        } else {
            p
        }
    } else if p.escaped {
        QuotePass { escaped: false, ..p }
    } else if c == '\\' {
        QuotePass { escaped: true, ..p }
    } else if c == '\'' || c == '"' {
        QuotePass { quote: Some(c), ..p }
    } else if c == '[' && p.bracket is None {
        QuotePass { bracket: Some(i), ..p }
    } else if c == ']' && p.bracket is Some {
        let start = p.bracket->0;
        match quoted_attribute(s.subrange(start + 1, i)) {
            Some(a) => QuotePass {
                out: p.out + s.subrange(p.copied, start + 1) + a + seq![']'],
                copied: i + 1,
                bracket: None,
                changed: true,
                ..p
            },
            None => QuotePass { bracket: None, ..p },
        }
    } else {
        p
    }
}

/// The state of the pass after the first `n` characters.
pub open spec fn quote_pass(s: Seq<char>, n: int) -> QuotePass
    decreases n,
{
    if n <= 0 {
        QuotePass { out: seq![], copied: 0, bracket: None, quote: None, escaped: false, changed: false }
    } else {
        quote_step(s, quote_pass(s, n - 1), n - 1)
    }
}

/// The selector with the bare attribute values that hold a colon put in quotes,
/// if there are any.
pub open spec fn quoted_selector(s: Seq<char>) -> Option<Seq<char>> {
    let p = quote_pass(s, s.len() as int);
    if p.changed {
        Some(p.out + s.subrange(p.copied, s.len() as int))
    } else {
        None
    }
}

pub fn quote_unquoted_colon_attribute_values(selector: &str) -> (r: Option<String>)
    ensures
        opt_text(r) == quoted_selector(selector@),
{
    let v = chars_of(selector);
    let mut out: Vec<char> = Vec::new();
    let mut copied: usize = 0;
    let mut bracket: Option<usize> = None;
    let mut quote: Option<char> = None;
    let mut escaped = false;
    let mut changed = false;
    let mut i: usize = 0;
    while i < v.len()
        invariant
            v@ == selector@,
            i <= v.len(),
            copied <= i,
            bracket is Some ==> copied <= bracket->0 < i,
            ({
                let p = quote_pass(v@, i as int);
                &&& p.out == out@
                &&& p.copied == copied
                &&& p.bracket is Some == bracket is Some
                &&& bracket is Some ==> p.bracket->0 == bracket->0
                &&& p.quote == quote
                &&& p.escaped == escaped
                &&& p.changed == changed
            }),
        decreases v.len() - i,
    {
        let c = v[i];
        if let Some(q) = quote {
            if escaped {
                escaped = false;
            } else if c == '\\' {
                escaped = true;
            } else if c == q {
                quote = None;
            }
        } else if escaped {
            escaped = false;
        } else if c == '\\' {
            escaped = true;
        } else if c == '\'' || c == '"' {
            quote = Some(c);
        } else if c == '[' && bracket.is_none() {
            bracket = Some(i);
        } else if c == ']' {
            if let Some(start) = bracket {
                bracket = None;
                let mut inner: Vec<char> = Vec::new();
                push_range(&mut inner, &v, start + 1, i);
                assert(inner@ =~= v@.subrange(start + 1, i as int));
                if let Some(attribute) = quote_unquoted_colon_attribute_value(&inner) {
                    push_range(&mut out, &v, copied, start + 1);
                    push_range(&mut out, &attribute, 0, attribute.len());
                    assert(attribute@.subrange(0, attribute.len() as int) =~= attribute@);
                    out.push(']');
                    copied = i + 1;
                    changed = true;
                    assert(out@ =~= quote_pass(v@, i + 1).out);
                }
            }
        }
        i = i + 1;
    }
    if !changed {
        return None;
    }
    push_range(&mut out, &v, copied, v.len());
    Some(string_of(&out))
}

/// The selector that is matched for `css`: itself where it is valid, else the
/// one with quotes added where that is valid.
pub open spec fn usable_css(css: Seq<char>) -> Option<Seq<char>> {
    if css_valid(css) {
        Some(css)
    } else {
        match quoted_selector(css) {
            Some(q) => if css_valid(q) {
                Some(q)
            } else {
                None
            },
            None => None,
        }
    }
}

pub fn parse_css_selector(css: &str) -> (r: Option<String>)
    ensures
        opt_text(r) == usable_css(css@),
{
    if css_is_valid(css) {
        return Some(copy(css));
    }
    match quote_unquoted_colon_attribute_values(css) {
        Some(q) => if css_is_valid(q.as_str()) {
            Some(q)
        } else {
            None
        },
        None => None,
    }
}

pub open spec fn base_of(selector: Seq<char>) -> BaseV {
    let s = trim_of(selector);
    if s.len() == 0 || s == "children"@ {
        BaseV::Children
    } else if has_prefix(s, "text."@) {
        BaseV::Text(trim_of(s.subrange("text."@.len() as int, s.len() as int)))
    } else {
        BaseV::Css(css_of(s))
    }
}

pub fn parse_selector_base(selector: &str) -> (r: SelectorBase)
    ensures
        r.model() == base_of(selector@),
{
    let s = trim(selector);
    if is_empty_text(s.as_str()) || same(s.as_str(), "children") {
        return SelectorBase::Children;
    }
    if let Some(text) = strip_prefix(s.as_str(), "text.") {
        return SelectorBase::Text(trim(text.as_str()));
    }
    SelectorBase::Css(legado_to_css(s.as_str()))
}

/// A number that may be left out: `None` where the text is no number,
/// `Some(None)` where it is blank.
pub open spec fn optional_i32_of(part: Seq<char>) -> Option<Option<int>> {
    let s = trim_of(part);
    if s.len() == 0 {
        Some(None)
    } else {
        match i32_of(s) {
            Some(n) => Some(Some(n)),
            None => None,
        }
    }
}

pub open spec fn i32_of(s: Seq<char>) -> Option<int> {
    within(signed_of(s), i32::MIN as int, i32::MAX as int)
}

pub fn parse_optional_i32(part: &str) -> (r: Option<Option<i32>>)
    ensures
        match r {
            Some(Some(n)) => optional_i32_of(part@) == Some(Some(n as int)),
            Some(None) => optional_i32_of(part@) == Some(None::<int>),
            None => optional_i32_of(part@) is None,
        },
{
    let s = trim(part);
    if is_empty_text(s.as_str()) {
        return Some(None);
    }
    match parse_i32(s.as_str()) {
        Some(n) => Some(Some(n)),
        None => None,
    }
}

pub open spec fn narrow(o: Option<int>) -> Option<i32> {
    match o {
        Some(n) => Some(n as i32),
        None => None,
    }
}

/// The index item that a part of a bracket list writes: `n`, `a:b` or `a:b:step`.
pub open spec fn bracket_item_of(part: Seq<char>) -> Option<IndexItem> {
    if contains_text(part, ":"@) {
        let seg = split_of(part, ":"@);
        if seg.len() < 2 || seg.len() > 3 {
            None
        } else {
            match (optional_i32_of(seg[0]), optional_i32_of(seg[1])) {
                (Some(a), Some(b)) => if seg.len() == 3 {
                    match optional_i32_of(seg[2]) {
                        Some(Some(n)) => Some(IndexItem::Range { start: narrow(a), end: narrow(b), step: n as i32 }),
                        Some(None) => Some(IndexItem::Range { start: narrow(a), end: narrow(b), step: 1 }),
                        None => None,
                    }
                } else {
                    Some(IndexItem::Range { start: narrow(a), end: narrow(b), step: 1 })
                },
                _ => None,
            }
        }
    } else {
        match i32_of(part) {
            Some(n) => Some(IndexItem::Single(n as i32)),
            None => None,
        }
    }
}

pub fn parse_bracket_index_item(part: &str) -> (r: Option<IndexItem>)
    ensures
        r == bracket_item_of(part@),
{
    if contains(part, ":") {
        proof {
            reveal_strlit(":");
        }
        let segments = split(part, ":");
        assert(texts(segments@).len() == segments.len());
        if segments.len() < 2 || segments.len() > 3 {
            return None;
        }
        assert(texts(segments@)[0] == segments@[0]@);
        assert(texts(segments@)[1] == segments@[1]@);
        let start = match parse_optional_i32(segments[0].as_str()) {
            Some(x) => x,
            None => {
                return None;
            },
        };
        let end = match parse_optional_i32(segments[1].as_str()) {
            Some(x) => x,
            None => {
                return None;
            },
        };
        let step: i32 = if segments.len() == 3 {
            assert(texts(segments@)[2] == segments@[2]@);
            match parse_optional_i32(segments[2].as_str()) {
                Some(Some(n)) => n,
                Some(None) => 1,
                None => {
                    return None;
                },
            }
        } else {
            1
        };
        return Some(IndexItem::Range { start, end, step });
    }
    match parse_i32(part) {
        Some(n) => Some(IndexItem::Single(n)),
        None => None,
    }
}

/// The items of the first `n` parts of a bracket list; blank parts give none.
pub open spec fn bracket_items_of(parts: Seq<Seq<char>>, n: int) -> Option<Seq<IndexItem>>
    decreases n,
{
    if n <= 0 {
        Some(seq![])
    } else {
        match bracket_items_of(parts, n - 1) {
            Some(items) => {
                let p = trim_of(parts[n - 1]);
                if p.len() == 0 {
                    Some(items)
                } else {
                    match bracket_item_of(p) {
                        Some(item) => Some(items.push(item)),
                        None => None,
                    }
                }
            },
            None => None,
        }
    }
}

proof fn lemma_bracket_none(parts: Seq<Seq<char>>, i: int, n: int)
    requires
        i <= n,
        bracket_items_of(parts, i) is None,
    ensures
        bracket_items_of(parts, n) is None,
    decreases n - i,
{
    if i < n {
        lemma_bracket_none(parts, i, n - 1);
    }
}

pub fn parse_bracket_items(inner: &str) -> (r: Option<Vec<IndexItem>>)
    ensures
        match r {
            Some(items) => bracket_items_of(split_of(inner@, ","@), split_of(inner@, ","@).len() as int) == Some(items@),
            None => bracket_items_of(split_of(inner@, ","@), split_of(inner@, ","@).len() as int) is None,
        },
{
    proof {
        reveal_strlit(",");
    }
    let parts = split(inner, ",");
    let ghost all = split_of(inner@, ","@);
    let mut items: Vec<IndexItem> = Vec::new();
    let mut i: usize = 0;
    while i < parts.len()
        invariant
            i <= parts.len(),
            texts(parts@) == all,
            all == split_of(inner@, ","@),
            bracket_items_of(all, i as int) == Some(items@),
        decreases parts.len() - i,
    {
        assert(all[i as int] == parts@[i as int]@);
        let part = trim(parts[i].as_str());
        if !is_empty_text(part.as_str()) {
            match parse_bracket_index_item(part.as_str()) {
                Some(item) => items.push(item),
                None => {
                    proof {
                        lemma_bracket_none(all, i + 1, all.len() as int);
                    }
                    return None;
                },
            }
        }
        i = i + 1;
    }
    assert(all.len() == parts.len());
    Some(items)
}

/// A selector's base, the mode of its index list and the list.
pub struct IndexSpecV {
    pub base: Seq<char>,
    pub mode: IndexMode,
    pub items: Seq<IndexItem>,
}

/// `base[..]`: what stands in the last brackets, if it is an index list.
pub open spec fn bracket_spec_of(selector: Seq<char>) -> Option<IndexSpecV> {
    let s = trim_of(selector);
    match (has_suffix(s, "]"@), rsplit_once_of(s, "["@)) {
        (true, Some((base, rest))) => {
            let inner = trim_of(rest.subrange(0, rest.len() - 1));
            let exclude = has_prefix(inner, "!"@);
            let list = if exclude {
                trim_of(inner.subrange(1, inner.len() as int))
            } else {
                inner
            };
            let parts = split_of(list, ","@);
            match bracket_items_of(parts, parts.len() as int) {
                Some(items) => Some(
                    IndexSpecV {
                        base: trim_of(base),
                        mode: if exclude {
                            IndexMode::Exclude
                        } else {
                            IndexMode::Select
                        },
                        items,
                    },
                ),
                None => None,
            }
        },
        _ => None,
    }
}

proof fn lemma_last_char(s: Seq<char>, k: int)
    requires
        has_suffix(s, "]"@),
        rfind_of(s, "["@) == Some(k),
        0 <= k,
        k + 1 <= s.len(),
    ensures
        k + 1 < s.len(),
{
    reveal_strlit("]");
    reveal_strlit("[");
    lemma_rfind(s, "["@, s.len() - 1);
    assert(s.subrange(s.len() - 1, s.len() as int)[0] == ']');
    assert(s.subrange(k, k + 1)[0] == '[');
}

proof fn lemma_rfind(s: Seq<char>, p: Seq<char>, i: int)
    ensures
        match crate::util::chars::rfind_from(s, p, i) {
            Some(k) => k <= i && crate::util::chars::occurs_at(s, p, k),
            None => true,
        },
    decreases i + 1,
{
    if i >= 0 && !crate::util::chars::occurs_at(s, p, i) {
        lemma_rfind(s, p, i - 1);
    }
}

pub fn parse_bracket_index_spec(selector: &str) -> (r: Option<(String, IndexMode, Vec<IndexItem>)>)
    ensures
        match r {
            Some((base, mode, items)) => bracket_spec_of(selector@) == Some(
                IndexSpecV { base: base@, mode, items: items@ },
            ),
            None => bracket_spec_of(selector@) is None,
        },
{
    let s = trim(selector);
    if !ends_with(s.as_str(), "]") {
        return None;
    }
    let k = match rfind(s.as_str(), "[") {
        Some(k) => k,
        None => {
            return None;
        },
    };
    proof {
        reveal_strlit("[");
        reveal_strlit("!");
        lemma_last_char(s@, k as int);
    }
    let v = chars_of(s.as_str());
    let end: usize = v.len();
    let base = trim(string_range(&v, 0, k).as_str());
    let inner = trim(string_range(&v, k + 1, end - 1).as_str());
    assert(s@.subrange(k + 1, s@.len() as int).subrange(0, s@.len() - k - 2) =~= s@.subrange(k + 1, s@.len() - 1));
    let (mode, list) = match strip_prefix(inner.as_str(), "!") {
        Some(rest) => (IndexMode::Exclude, trim(rest.as_str())),
        None => (IndexMode::Select, inner),
    };
    match parse_bracket_items(list.as_str()) {
        Some(items) => Some((base, mode, items)),
        None => None,
    }
}

/// The items of the first `n` parts of a legacy list, all plain numbers.
pub open spec fn legacy_items_of(parts: Seq<Seq<char>>, n: int) -> Option<Seq<IndexItem>>
    decreases n,
{
    if n <= 0 {
        Some(seq![])
    } else {
        match (legacy_items_of(parts, n - 1), i32_of(trim_of(parts[n - 1]))) {
            (Some(items), Some(k)) => Some(items.push(IndexItem::Single(k as i32))),
            _ => None,
        }
    }
}

proof fn lemma_legacy_none(parts: Seq<Seq<char>>, i: int, n: int)
    requires
        i <= n,
        legacy_items_of(parts, i) is None,
    ensures
        legacy_items_of(parts, n) is None,
    decreases n - i,
{
    if i < n {
        lemma_legacy_none(parts, i, n - 1);
    }
}

pub fn parse_legacy_items(tail: &str) -> (r: Option<Vec<IndexItem>>)
    ensures
        match r {
            Some(items) => legacy_items_of(split_of(tail@, ":"@), split_of(tail@, ":"@).len() as int) == Some(items@),
            None => legacy_items_of(split_of(tail@, ":"@), split_of(tail@, ":"@).len() as int) is None,
        },
{
    proof {
        reveal_strlit(":");
    }
    let parts = split(tail, ":");
    let ghost all = split_of(tail@, ":"@);
    let mut items: Vec<IndexItem> = Vec::new();
    let mut i: usize = 0;
    while i < parts.len()
        invariant
            i <= parts.len(),
            texts(parts@) == all,
            all == split_of(tail@, ":"@),
            legacy_items_of(all, i as int) == Some(items@),
        decreases parts.len() - i,
    {
        assert(all[i as int] == parts@[i as int]@);
        match parse_i32(trim(parts[i].as_str()).as_str()) {
            Some(n) => items.push(IndexItem::Single(n)),
            None => {
                proof {
                    lemma_legacy_none(all, i + 1, all.len() as int);
                }
                return None;
            },
        }
        i = i + 1;
    }
    assert(all.len() == parts.len());
    Some(items)
}

/// What follows the last `mark`: `None` where nothing does, else the index list
/// or its absence.
pub open spec fn legacy_after(selector: Seq<char>, mark: Seq<char>, mode: IndexMode) -> Option<Option<IndexSpecV>> {
    match rsplit_once_of(selector, mark) {
        Some((base, rest)) => {
            let tail = trim_of(rest);
            if tail.len() == 0 {
                None
            } else {
                let parts = split_of(tail, ":"@);
                match legacy_items_of(parts, parts.len() as int) {
                    Some(items) => Some(Some(IndexSpecV { base: trim_of(base), mode, items })),
                    None => Some(None),
                }
            }
        },
        None => None,
    }
}

/// `base!a:b` (all but these) or `base.a:b` (these): the list after the last
/// `!`, or, where nothing follows a `!`, after the last `.`.
pub open spec fn legacy_spec_of(selector: Seq<char>) -> Option<IndexSpecV> {
    match legacy_after(selector, "!"@, IndexMode::Exclude) {
        Some(x) => x,
        None => match legacy_after(selector, "."@, IndexMode::Select) {
            Some(x) => x,
            None => None,
        },
    }
}

pub fn parse_legacy_after(selector: &str, mark: &str, mode: IndexMode) -> (r: Option<
    Option<(String, IndexMode, Vec<IndexItem>)>,
>)
    ensures
        match r {
            Some(Some((base, m, items))) => legacy_after(selector@, mark@, mode) == Some(
                Some(IndexSpecV { base: base@, mode: m, items: items@ }),
            ),
            Some(None) => legacy_after(selector@, mark@, mode) == Some(None::<IndexSpecV>),
            None => legacy_after(selector@, mark@, mode) is None,
        },
{
    match rsplit_once(selector, mark) {
        Some((base, rest)) => {
            let tail = trim(rest.as_str());
            if is_empty_text(tail.as_str()) {
                return None;
            }
            match parse_legacy_items(tail.as_str()) {
                Some(items) => Some(Some((trim(base.as_str()), mode, items))),
                None => Some(None),
            }
        },
        None => None,
    }
}

pub fn parse_legacy_index_spec(selector: &str) -> (r: Option<(String, IndexMode, Vec<IndexItem>)>)
    ensures
        match r {
            Some((base, mode, items)) => legacy_spec_of(selector@) == Some(
                IndexSpecV { base: base@, mode, items: items@ },
            ),
            None => legacy_spec_of(selector@) is None,
        },
{
    match parse_legacy_after(selector, "!", IndexMode::Exclude) {
        Some(x) => x,
        None => match parse_legacy_after(selector, ".", IndexMode::Select) {
            Some(x) => x,
            None => None,
        },
    }
}

/// A selector rule taken apart: its base, and its index list if it has one.
pub open spec fn selector_of(selector: Seq<char>) -> SelectorV {
    let s = trim_of(selector);
    let found = match bracket_spec_of(s) {
        Some(x) => Some(x),
        None => legacy_spec_of(s),
    };
    match found {
        Some(x) => SelectorV {
            base: base_of(x.base),
            explicit_index: true,
            index_mode: x.mode,
            index_items: x.items,
        },
        None => SelectorV {
            base: base_of(s),
            explicit_index: false,
            index_mode: IndexMode::Select,
            index_items: seq![],
        },
    }
}

pub fn parse_selector_with_index(selector: &str) -> (r: ParsedSelector)
    ensures
        r.model() == selector_of(selector@),
{
    let s = trim(selector);
    let found = match parse_bracket_index_spec(s.as_str()) {
        Some(x) => Some(x),
        None => parse_legacy_index_spec(s.as_str()),
    };
    match found {
        Some((base, index_mode, index_items)) => ParsedSelector {
            base: parse_selector_base(base.as_str()),
            explicit_index: true,
            index_mode,
            index_items,
        },
        None => {
            let r = ParsedSelector {
                base: parse_selector_base(s.as_str()),
                explicit_index: false,
                index_mode: IndexMode::Select,
                index_items: Vec::new(),
            };
            assert(r.model().index_items =~= seq![]);
            r
        },
    }
}

/// Whether every selector of a rule can be matched.
pub open spec fn step_valid(step: Seq<char>) -> bool {
    match selector_of(split_result(step, seq!["@"@])[0]).base {
        BaseV::Css(css) => usable_css(css) is Some,
        _ => true,
    }
}

pub open spec fn chain_valid(chain: Seq<char>) -> bool {
    let steps = split_result(chain, seq!["@@"@]);
    forall|i: int| 0 <= i < steps.len() ==> step_valid(#[trigger] steps[i])
}

pub open spec fn rule_valid(rule: Seq<char>) -> bool {
    let parts = split_result(rule, seq!["&&"@, "||"@, "%%"@]);
    forall|i: int| 0 <= i < parts.len() ==> chain_valid(#[trigger] parts[i])
}

pub fn step_is_valid(step: &str) -> (r: bool)
    ensures
        r == step_valid(step@),
{
    proof {
        reveal_strlit("@");
        lemma_parts_nonempty(step@, seq!["@"@]);
    }
    let list = ["@"];
    assert(strs(list@) =~= seq!["@"@]);
    let parts = split_top_level(step, &list).parts;
    assert(texts(parts@).len() == parts.len());
    assert(texts(parts@)[0] == parts@[0]@);
    match parse_selector_with_index(parts[0].as_str()).base {
        SelectorBase::Css(css) => parse_css_selector(css.as_str()).is_some(),
        _ => true,
    }
}

pub fn chain_is_valid(chain: &str) -> (r: bool)
    ensures
        r == chain_valid(chain@),
{
    proof {
        reveal_strlit("@@");
    }
    let list = ["@@"];
    assert(strs(list@) =~= seq!["@@"@]);
    let steps = split_top_level(chain, &list).parts;
    let ghost all = split_result(chain@, seq!["@@"@]);
    let mut i: usize = 0;
    while i < steps.len()
        invariant
            i <= steps.len(),
            texts(steps@) == all,
            all == split_result(chain@, seq!["@@"@]),
            forall|k: int| 0 <= k < i ==> step_valid(#[trigger] all[k]),
        decreases steps.len() - i,
    {
        assert(all[i as int] == steps@[i as int]@);
        if !step_is_valid(steps[i].as_str()) {
            return false;
        }
        i = i + 1;
    }
    assert(all.len() == steps.len());
    true
}

/// Whether every CSS selector in a rule can be matched.
pub fn css_rule_is_valid(rule: &str) -> (r: bool)
    ensures
        r == rule_valid(rule@),
{
    let split = split_combination(rule);
    let parts = split.parts;
    let ghost all = split_result(rule@, combination_marks());
    let mut i: usize = 0;
    while i < parts.len()
        invariant
            i <= parts.len(),
            texts(parts@) == all,
            all == split_result(rule@, seq!["&&"@, "||"@, "%%"@]),
            forall|k: int| 0 <= k < i ==> chain_valid(#[trigger] all[k]),
        decreases parts.len() - i,
    {
        assert(all[i as int] == parts@[i as int]@);
        if !chain_is_valid(parts[i].as_str()) {
            return false;
        }
        i = i + 1;
    }
    assert(all.len() == parts.len());
    true
}

/// The operators that join rules: all results, the first that has any, or one
/// of each in turn.
pub open spec fn combination_marks() -> Seq<Seq<char>> {
    seq!["&&"@, "||"@, "%%"@]
}

/// Splits a rule at `&&`, `||` or `%%`, whichever comes first at top level.
pub fn split_combination(rule: &str) -> (r: crate::parser::rule_analyzer::SplitResult)
    ensures
        texts(r.parts@) == split_result(rule@, combination_marks()),
        opt_text(r.delimiter) == split_delimiter(rule@, combination_marks()),
        r.parts.len() > 0,
{
    proof {
        reveal_strlit("&&");
        reveal_strlit("||");
        reveal_strlit("%%");
        lemma_parts_nonempty(rule@, combination_marks());
    }
    let list = ["&&", "||", "%%"];
    assert(strs(list@) =~= combination_marks());
    let r = split_top_level(rule, &list);
    assert(texts(r.parts@).len() == r.parts.len());
    r
}

pub open spec fn at_mark() -> Seq<Seq<char>> {
    seq!["@"@]
}

/// Splits a rule at its top-level `@`.
pub fn split_at_sign(rule: &str) -> (r: Vec<String>)
    ensures
        texts(r@) == split_result(rule@, at_mark()),
        r.len() > 0,
{
    proof {
        reveal_strlit("@");
        lemma_parts_nonempty(rule@, at_mark());
    }
    let list = ["@"];
    assert(strs(list@) =~= at_mark());
    let r = split_top_level(rule, &list).parts;
    assert(texts(r@).len() == r.len());
    r
}

/// The position that an index names in a list of `len` items: a negative one
/// counts from the end.
pub open spec fn index_in(index: int, len: int) -> Option<int> {
    let k = if index < 0 {
        len + index
    } else {
        index
    };
    if 0 <= k < len {
        Some(k)
    } else {
        None
    }
}

pub open spec fn clamped(x: int, hi: int) -> int {
    if x < 0 {
        0
    } else if x > hi {
        hi
    } else {
        x
    }
}

pub open spec fn ascending(current: int, end: int, step: int) -> Seq<int>
    decreases
        if current <= end {
            end - current + 1
        } else {
            0
        },
{
    if current <= end && step > 0 {
        seq![current] + ascending(current + step, end, step)
    } else {
        seq![]
    }
}

/// Counting down ends at the first number that is at most `end`, or that the
/// step cannot be taken from.
pub open spec fn descending(current: int, end: int, step: int) -> Seq<int>
    decreases current,
{
    if current <= end || current < step || step <= 0 {
        seq![current]
    } else {
        seq![current] + descending(current - step, end, step)
    }
}

/// The positions of a range in a list of `len` items. A missing start is the
/// first item, a missing end the last; a step that is not positive counts from
/// the length of the list.
pub open spec fn range_in(len: int, start: Option<i32>, end: Option<i32>, step: int) -> Seq<int> {
    let a0 = match start {
        Some(x) => x as int,
        None => 0,
    };
    let b0 = match end {
        Some(x) => x as int,
        None => len - 1,
    };
    let a = if a0 < 0 {
        a0 + len
    } else {
        a0
    };
    let b = if b0 < 0 {
        b0 + len
    } else {
        b0
    };
    if len == 0 || (a < 0 && b < 0) || (a >= len && b >= len) {
        seq![]
    } else {
        let from = clamped(a, len - 1);
        let to = clamped(b, len - 1);
        let by = if step > 0 {
            step
        } else if -step < len {
            step + len
        } else {
            1
        };
        if from <= to {
            ascending(from, to, by)
        } else {
            descending(from, to, by)
        }
    }
}

pub open spec fn item_positions(len: int, item: IndexItem) -> Seq<int> {
    match item {
        IndexItem::Single(i) => match index_in(i as int, len) {
            Some(k) => seq![k],
            None => seq![],
        },
        IndexItem::Range { start, end, step } => range_in(len, start, end, step as int),
    }
}

/// `acc` followed by the first `n` of `xs` that are not there yet.
pub open spec fn with_new<T>(acc: Seq<T>, xs: Seq<T>, n: int) -> Seq<T>
    decreases n,
{
    if n <= 0 {
        acc
    } else {
        let rest = with_new(acc, xs, n - 1);
        if rest.contains(xs[n - 1]) {
            rest
        } else {
            rest.push(xs[n - 1])
        }
    }
}

/// The positions that the first `n` items name, each once, in order.
pub open spec fn positions_of(len: int, items: Seq<IndexItem>, n: int) -> Seq<int>
    decreases n,
{
    if n <= 0 {
        seq![]
    } else {
        let xs = item_positions(len, items[n - 1]);
        with_new(positions_of(len, items, n - 1), xs, xs.len() as int)
    }
}

pub open spec fn in_range(s: Seq<int>, len: int) -> bool {
    forall|i: int| 0 <= i < s.len() ==> 0 <= #[trigger] s[i] < len
}

pub fn normalize_index(index: i32, len: usize) -> (r: Option<usize>)
    ensures
        match r {
            Some(k) => index_in(index as int, len as int) == Some(k as int),
            None => index_in(index as int, len as int) is None,
        },
{
    let k: i128 = if index < 0 {
        len as i128 + index as i128
    } else {
        index as i128
    };
    if k < 0 || k >= len as i128 {
        return None;
    }
    Some(k as usize)
}

fn count_up(from: usize, to: usize, step: usize) -> (r: Vec<usize>)
    requires
        step > 0,
        to < usize::MAX,
    ensures
        ints(r@) == ascending(from as int, to as int, step as int),
        in_range(ints(r@), to + 1),
{
    let mut r: Vec<usize> = Vec::new();
    let mut current: usize = from;
    assert(ints(r@) + ascending(from as int, to as int, step as int) =~= ascending(
        from as int,
        to as int,
        step as int,
    ));
    while current <= to
        invariant
            step > 0,
            to < usize::MAX,
            in_range(ints(r@), to + 1),
            ascending(from as int, to as int, step as int) == ints(r@) + ascending(
                current as int,
                to as int,
                step as int,
            ),
        decreases to + 1 - current,
    {
        let ghost before = ints(r@);
        r.push(current);
        assert(ints(r@) =~= before.push(current as int));
        assert(before + (seq![current as int] + ascending(current + step, to as int, step as int)) =~= ints(r@)
            + ascending(current + step, to as int, step as int));
        if step > to - current {
            assert(ints(r@) + ascending(current + step, to as int, step as int) =~= ints(r@));
            return r;
        }
        current = current + step;
    }
    assert(ints(r@) + ascending(current as int, to as int, step as int) =~= ints(r@));
    r
}

fn count_down(from: usize, to: usize, step: usize) -> (r: Vec<usize>)
    requires
        step > 0,
    ensures
        ints(r@) == descending(from as int, to as int, step as int),
        in_range(ints(r@), from + 1),
{
    let mut r: Vec<usize> = Vec::new();
    let mut current: usize = from;
    assert(ints(r@) + descending(from as int, to as int, step as int) =~= descending(
        from as int,
        to as int,
        step as int,
    ));
    loop
        invariant
            step > 0,
            current <= from,
            in_range(ints(r@), from + 1),
            descending(from as int, to as int, step as int) == ints(r@) + descending(
                current as int,
                to as int,
                step as int,
            ),
        decreases current,
    {
        let ghost before = ints(r@);
        r.push(current);
        assert(ints(r@) =~= before.push(current as int));
        if current <= to || current < step {
            assert(before + seq![current as int] =~= ints(r@));
            return r;
        }
        assert(before + (seq![current as int] + descending(current - step, to as int, step as int)) =~= ints(r@)
            + descending(current - step, to as int, step as int));
        current = current - step;
    }
}

pub fn expand_range(len: usize, start: Option<i32>, end: Option<i32>, step: i32) -> (r: Vec<usize>)
    ensures
        ints(r@) == range_in(len as int, start, end, step as int),
        in_range(ints(r@), len as int),
{
    let n: i128 = len as i128;
    let mut a: i128 = match start {
        Some(x) => x as i128,
        None => 0,
    };
    let mut b: i128 = match end {
        Some(x) => x as i128,
        None => n - 1,
    };
    if a < 0 {
        a = a + n;
    }
    if b < 0 {
        b = b + n;
    }
    if len == 0 || (a < 0 && b < 0) || (a >= n && b >= n) {
        let r: Vec<usize> = Vec::new();
        assert(ints(r@) =~= seq![]);
        return r;
    }
    let from: usize = if a < 0 {
        0
    } else if a > n - 1 {
        len - 1
    } else {
        a as usize
    };
    let to: usize = if b < 0 {
        0
    } else if b > n - 1 {
        len - 1
    } else {
        b as usize
    };
    let by: usize = if step > 0 {
        step as usize
    } else if -(step as i128) < n {
        (step as i128 + n) as usize
    } else {
        1
    };
    if from <= to {
        count_up(from, to, by)
    } else {
        count_down(from, to, by)
    }
}

pub fn expand_index_item(len: usize, item: &IndexItem) -> (r: Vec<usize>)
    ensures
        ints(r@) == item_positions(len as int, *item),
        in_range(ints(r@), len as int),
{
    match item {
        IndexItem::Single(i) => {
            let mut r: Vec<usize> = Vec::new();
            if let Some(k) = normalize_index(*i, len) {
                r.push(k);
                assert(ints(r@) =~= seq![k as int]);
            } else {
                assert(ints(r@) =~= seq![]);
            }
            r
        },
        IndexItem::Range { start, end, step } => expand_range(len, *start, *end, *step),
    }
}

pub fn has_position(v: &Vec<usize>, x: usize) -> (r: bool)
    ensures
        r == ints(v@).contains(x as int),
{
    let mut i: usize = 0;
    while i < v.len()
        invariant
            i <= v.len(),
            forall|k: int| 0 <= k < i ==> ints(v@)[k] != x,
        decreases v.len() - i,
    {
        if v[i] == x {
            assert(ints(v@)[i as int] == x);
            return true;
        }
        i = i + 1;
    }
    false
}

proof fn lemma_with_new<T>(acc: Seq<T>, xs: Seq<T>, n: int)
    requires
        acc.no_duplicates(),
        0 <= n <= xs.len(),
    ensures
        with_new(acc, xs, n).no_duplicates(),
    decreases n,
{
    if n > 0 {
        lemma_with_new(acc, xs, n - 1);
    }
}

/// An index list names every position once.
pub proof fn law_positions_once(len: int, items: Seq<IndexItem>, n: int)
    requires
        0 <= n <= items.len(),
    ensures
        positions_of(len, items, n).no_duplicates(),
    decreases n,
{
    if n > 0 {
        law_positions_once(len, items, n - 1);
        let xs = item_positions(len, items[n - 1]);
        lemma_with_new(positions_of(len, items, n - 1), xs, xs.len() as int);
    }
}

/// The positions that an index list names in a list of `len` items, each once.
pub fn resolve_indices(len: usize, items: &Vec<IndexItem>) -> (r: Vec<usize>)
    ensures
        ints(r@) == positions_of(len as int, items@, items@.len() as int),
        in_range(ints(r@), len as int),
{
    let mut r: Vec<usize> = Vec::new();
    let mut i: usize = 0;
    assert(ints(r@) =~= seq![]);
    while i < items.len()
        invariant
            i <= items.len(),
            ints(r@) == positions_of(len as int, items@, i as int),
            in_range(ints(r@), len as int),
        decreases items.len() - i,
    {
        let xs = expand_index_item(len, &items[i]);
        let ghost base = ints(r@);
        let mut k: usize = 0;
        while k < xs.len()
            invariant
                k <= xs.len(),
                in_range(ints(xs@), len as int),
                ints(r@) == with_new(base, ints(xs@), k as int),
                in_range(ints(r@), len as int),
            decreases xs.len() - k,
        {
            assert(ints(xs@)[k as int] == xs@[k as int]);
            if !has_position(&r, xs[k]) {
                let ghost before = ints(r@);
                r.push(xs[k]);
                assert(ints(r@) =~= before.push(xs@[k as int] as int));
            }
            k = k + 1;
        }
        assert(ints(xs@).len() == xs.len());
        i = i + 1;
    }
    r
}

/// The matches at the first `n` of the given positions.
pub open spec fn picked(matches: Seq<int>, positions: Seq<int>) -> Seq<int> {
    Seq::new(positions.len(), |i: int| matches[positions[i]])
}

/// The first `n` matches but those at the given positions.
pub open spec fn excluded(matches: Seq<int>, positions: Seq<int>, n: int) -> Seq<int>
    decreases n,
{
    if n <= 0 {
        seq![]
    } else if positions.contains(n - 1) {
        excluded(matches, positions, n - 1)
    } else {
        excluded(matches, positions, n - 1).push(matches[n - 1])
    }
}

/// The matches that a selector's index list leaves.
pub open spec fn indexed(matches: Seq<int>, s: SelectorV) -> Seq<int> {
    let positions = positions_of(matches.len() as int, s.index_items, s.index_items.len() as int);
    if !s.explicit_index {
        matches
    } else if s.index_mode == IndexMode::Exclude {
        excluded(matches, positions, matches.len() as int)
    } else {
        picked(matches, positions)
    }
}

pub fn apply_indices(matches: Vec<usize>, selector: &ParsedSelector, Ghost(d): Ghost<Seq<NodeV>>) -> (r: Vec<usize>)
    requires
        all_elements(d, ints(matches@)),
    ensures
        ints(r@) == indexed(ints(matches@), selector.model()),
        all_elements(d, ints(r@)),
{
    if !selector.explicit_index {
        return matches;
    }
    let positions = resolve_indices(matches.len(), &selector.index_items);
    let ghost ps = ints(positions@);
    let ghost ms = ints(matches@);
    let mut r: Vec<usize> = Vec::new();
    let mut i: usize = 0;
    if selector.index_mode == IndexMode::Exclude {
        assert(ints(r@) =~= seq![]);
        while i < matches.len()
            invariant
                i <= matches.len(),
                ps == ints(positions@),
                ms == ints(matches@),
                all_elements(d, ms),
                all_elements(d, ints(r@)),
                ints(r@) == excluded(ms, ps, i as int),
            decreases matches.len() - i,
        {
            assert(ms[i as int] == matches@[i as int]);
            if !has_position(&positions, i) {
                let ghost before = ints(r@);
                r.push(matches[i]);
                assert(ints(r@) =~= before.push(ms[i as int]));
            }
            i = i + 1;
        }
        assert(ms.len() == matches.len());
        return r;
    }
    assert(ps.len() == positions.len());
    while i < positions.len()
        invariant
            i <= positions.len(),
            ps == ints(positions@),
            ms == ints(matches@),
            in_range(ps, matches.len() as int),
            all_elements(d, ms),
            all_elements(d, ints(r@)),
            ints(r@) =~= picked(ms, ps).take(i as int),
        decreases positions.len() - i,
    {
        assert(ps[i as int] == positions@[i as int]);
        let k: usize = positions[i];
        assert(ms[k as int] == matches@[k as int]);
        let ghost before = ints(r@);
        r.push(matches[k]);
        assert(ints(r@) =~= before.push(ms[k as int]));
        i = i + 1;
    }
    assert(picked(ms, ps).take(positions.len() as int) =~= picked(ms, ps));
    r
}

/// The trimmed texts that stand directly in a node, the first `n` children's.
pub open spec fn own_texts(d: Seq<NodeV>, i: int, n: int, gap: Seq<char>) -> Seq<char>
    decreases n,
{
    if n <= 0 {
        seq![]
    } else {
        match d[d[i].children[n - 1]].kind {
            KindV::Text(t) => own_texts(d, i, n - 1, gap) + trim_of(t) + gap,
            _ => own_texts(d, i, n - 1, gap),
        }
    }
}

/// The text that stands directly in a node, each piece trimmed and followed by `gap`.
pub open spec fn own_text_of(d: Seq<NodeV>, i: int, gap: Seq<char>) -> Seq<char> {
    own_texts(d, i, d[i].children.len() as int, gap)
}

pub fn own_text(doc: &Document, node: usize, gap: &str) -> (r: String)
    requires
        doc.wf(),
        node < doc.dom().len(),
    ensures
        r@ == own_text_of(doc.dom(), node as int, gap@),
{
    let me = doc.node(node);
    let ghost d = doc.dom();
    let mut r = String::new();
    let mut k: usize = 0;
    assert(r@ =~= seq![]);
    while k < me.children.len()
        invariant
            k <= me.children.len(),
            doc.wf(),
            d == doc.dom(),
            node < d.len(),
            me.model() == d[node as int],
            r@ == own_texts(d, node as int, k as int, gap@),
        decreases me.children.len() - k,
    {
        assert(me.model().children[k as int] == me.children@[k as int]);
        assert(d[node as int].children[k as int] == me.children@[k as int]);
        let child = doc.node(me.children[k]);
        if let Kind::Text(t) = &child.kind {
            r.append(trim(t.as_str()).as_str());
            r.append(gap);
        }
        k = k + 1;
    }
    assert(me.model().children.len() == me.children.len());
    r
}

/// The texts in and below a node, in document order. With `all` unset, only
/// elements are looked into.
pub open spec fn texts_under(d: Seq<NodeV>, i: int, all: bool) -> Seq<Seq<char>>
    decreases d.len() - i, d[i].children.len() + 1,
{
    if i < 0 || i >= d.len() {
        seq![]
    } else {
        match d[i].kind {
            KindV::Text(t) => seq![t],
            KindV::Element(_) => texts_below(d, i, d[i].children.len() as int, all),
            KindV::Other => if all {
                texts_below(d, i, d[i].children.len() as int, all)
            } else {
                seq![]
            },
        }
    }
}

/// The texts in and below the first `n` children of a node.
pub open spec fn texts_below(d: Seq<NodeV>, i: int, n: int, all: bool) -> Seq<Seq<char>>
    decreases d.len() - i, n,
{
    if n <= 0 || i < 0 || i >= d.len() || n > d[i].children.len() {
        seq![]
    } else {
        let c = d[i].children[n - 1];
        if i < c < d.len() {
            texts_below(d, i, n - 1, all) + texts_under(d, c, all)
        } else {
            seq![]
        }
    }
}

/// All texts in and below the children of a node.
pub open spec fn texts_in(d: Seq<NodeV>, i: int, all: bool) -> Seq<Seq<char>> {
    texts_below(d, i, d[i].children.len() as int, all)
}

pub fn collect_texts(doc: &Document, node: usize, all: bool, out: &mut Vec<String>)
    requires
        doc.wf(),
        node < doc.dom().len(),
    ensures
        texts(final(out)@) == texts(old(out)@) + texts_in(doc.dom(), node as int, all),
    decreases doc.dom().len() - node,
{
    let me = doc.node(node);
    let ghost d = doc.dom();
    let ghost base = texts(out@);
    let mut k: usize = 0;
    assert(texts(out@) =~= base + texts_below(d, node as int, 0, all));
    while k < me.children.len()
        invariant
            k <= me.children.len(),
            doc.wf(),
            d == doc.dom(),
            node < d.len(),
            me.model() == d[node as int],
            texts(out@) == base + texts_below(d, node as int, k as int, all),
        decreases me.children.len() - k,
    {
        assert(me.model().children[k as int] == me.children@[k as int]);
        assert(d[node as int].children[k as int] == me.children@[k as int]);
        let c: usize = me.children[k];
        let child = doc.node(c);
        let ghost before = texts(out@);
        match &child.kind {
            Kind::Text(t) => {
                out.push(t.clone());
                assert(texts(out@) =~= before.push(t@));
            },
            Kind::Element(_) => {
                collect_texts(doc, c, all, out);
            },
            Kind::Other => {
                if all {
                    collect_texts(doc, c, all, out);
                }
            },
        }
        assert(texts(out@) =~= before + texts_under(d, c as int, all));
        assert(before + texts_under(d, c as int, all) =~= base + texts_below(d, node as int, k + 1, all));
        k = k + 1;
    }
    assert(me.model().children.len() == me.children.len());
}

/// The first `n` texts, trimmed, without the blank ones.
pub open spec fn filled(parts: Seq<Seq<char>>, n: int) -> Seq<Seq<char>>
    decreases n,
{
    if n <= 0 {
        seq![]
    } else if trim_of(parts[n - 1]).len() == 0 {
        filled(parts, n - 1)
    } else {
        filled(parts, n - 1).push(trim_of(parts[n - 1]))
    }
}

/// The texts, trimmed, without the blank ones.
pub fn trimmed_texts(parts: &Vec<String>) -> (r: Vec<String>)
    ensures
        texts(r@) == filled(texts(parts@), texts(parts@).len() as int),
{
    let mut r: Vec<String> = Vec::new();
    let mut i: usize = 0;
    assert(texts(r@) =~= seq![]);
    while i < parts.len()
        invariant
            i <= parts.len(),
            texts(r@) == filled(texts(parts@), i as int),
        decreases parts.len() - i,
    {
        assert(texts(parts@)[i as int] == parts@[i as int]@);
        let t = trim(parts[i].as_str());
        if !is_empty_text(t.as_str()) {
            let ghost before = texts(r@);
            let ghost x = t@;
            r.push(t);
            assert(texts(r@) =~= before.push(x));
        }
        i = i + 1;
    }
    assert(texts(parts@).len() == parts.len());
    r
}

/// The non-blank texts in and below an element, one per line.
pub open spec fn text_nodes_of(d: Seq<NodeV>, i: int) -> Seq<char> {
    let all = texts_in(d, i, false);
    join_of(filled(all, all.len() as int), "\n"@)
}

pub fn get_text_nodes(doc: &Document, node: usize) -> (r: String)
    requires
        doc.wf(),
        node < doc.dom().len(),
    ensures
        r@ == text_nodes_of(doc.dom(), node as int),
{
    let mut out: Vec<String> = Vec::new();
    let ghost empty = texts(out@);
    collect_texts(doc, node, false, &mut out);
    assert(empty + texts_in(doc.dom(), node as int, false) =~= texts_in(doc.dom(), node as int, false));
    join(&trimmed_texts(&out), "\n")
}

/// The whole text of an element: its pieces with blanks between, trimmed.
pub open spec fn whole_text_of(d: Seq<NodeV>, i: int) -> Seq<char> {
    trim_of(join_of(texts_in(d, i, true), " "@))
}

pub fn whole_text(doc: &Document, node: usize) -> (r: String)
    requires
        doc.wf(),
        node < doc.dom().len(),
    ensures
        r@ == whole_text_of(doc.dom(), node as int),
{
    let mut out: Vec<String> = Vec::new();
    let ghost empty = texts(out@);
    collect_texts(doc, node, true, &mut out);
    assert(empty + texts_in(doc.dom(), node as int, true) =~= texts_in(doc.dom(), node as int, true));
    trim(join(&out, " ").as_str())
}

/// The value of the first plain attribute of that name, from position `k` on.
pub open spec fn attr_from(attrs: Seq<AttrV>, name: Seq<char>, k: int) -> Option<Seq<char>>
    decreases attrs.len() - k,
{
    if k < 0 || k >= attrs.len() {
        None
    } else if attrs[k].space.len() == 0 && attrs[k].name == name {
        Some(attrs[k].value)
    } else {
        attr_from(attrs, name, k + 1)
    }
}

pub open spec fn attr_of(d: Seq<NodeV>, i: int, name: Seq<char>) -> Option<Seq<char>> {
    match d[i].kind {
        KindV::Element(attrs) => attr_from(attrs, name, 0),
        _ => None,
    }
}

pub fn attribute(doc: &Document, node: usize, name: &str) -> (r: Option<String>)
    requires
        doc.wf(),
        node < doc.dom().len(),
    ensures
        opt_text(r) == attr_of(doc.dom(), node as int, name@),
{
    let me = doc.node(node);
    if let Kind::Element(attrs) = &me.kind {
        let ghost all = attr_models(attrs@);
        let mut k: usize = 0;
        while k < attrs.len()
            invariant
                k <= attrs.len(),
                all == attr_models(attrs@),
                me.model() == doc.dom()[node as int],
                me.kind == Kind::Element(*attrs),
                attr_from(all, name@, 0) == attr_from(all, name@, k as int),
            decreases attrs.len() - k,
        {
            assert(all[k as int] == attrs@[k as int].model());
            let a: &Attr = &attrs[k];
            if is_empty_text(a.space.as_str()) && same(a.name.as_str(), name) {
                return Some(a.value.clone());
            }
            k = k + 1;
        }
        assert(attr_from(all, name@, k as int) is None);
        return None;
    }
    None
}

/// `s` unless it is blank.
pub open spec fn nonempty(s: Seq<char>) -> Option<Seq<char>> {
    if s.len() == 0 {
        None
    } else {
        Some(s)
    }
}

pub fn if_nonempty(s: String) -> (r: Option<String>)
    ensures
        opt_text(r) == nonempty(s@),
{
    if is_empty_text(s.as_str()) {
        None
    } else {
        Some(s)
    }
}

/// `s` without a leading `@`.
pub open spec fn without_at(s: Seq<char>) -> Seq<char> {
    match strip_prefix_of(s, "@"@) {
        Some(x) => x,
        None => s,
    }
}

pub fn strip_at(s: &str) -> (r: String)
    ensures
        r@ == without_at(s@),
{
    match strip_prefix(s, "@") {
        Some(x) => x,
        None => copy(s),
    }
}

/// The name in `attr[name]`, if there is one.
pub open spec fn attr_extractor_of(s: Seq<char>) -> Option<Seq<char>> {
    match strip_prefix_of(s, "attr["@) {
        Some(x) => match strip_suffix_of(x, "]"@) {
            Some(name) => nonempty(name),
            None => None,
        },
        None => None,
    }
}

pub fn parse_attr_extractor(s: &str) -> (r: Option<String>)
    ensures
        opt_text(r) == attr_extractor_of(s@),
{
    match strip_prefix(s, "attr[") {
        Some(x) => match strip_suffix(x.as_str(), "]") {
            Some(name) => if_nonempty(name),
            None => None,
        },
        None => None,
    }
}

/// The value that an extractor takes from element `i`: its text in one of
/// several forms, its markup, or an attribute.
pub open spec fn extracted(html: Seq<char>, i: int, extractor: Seq<char>) -> Option<Seq<char>> {
    let d = dom_of(html);
    let e = without_at(trim_of(extractor));
    if e == "text"@ {
        nonempty(whole_text_of(d, i))
    } else if e == "textNodes"@ {
        nonempty(text_nodes_of(d, i))
    } else if e == "ownText"@ {
        nonempty(trim_of(own_text_of(d, i, " "@)))
    } else if e == "html"@ {
        Some(inner_html_of(html, i))
    } else if e == "all"@ {
        Some(outer_html_of(html, i))
    } else {
        match attr_extractor_of(e) {
            Some(name) => attr_of(d, i, name),
            None => attr_of(d, i, e),
        }
    }
}

/// Extracts a value from an element: `text`, `textNodes`, `ownText`, `html`
/// (the markup inside), `all` (with the element's own tags), `attr[name]`, or
/// an attribute's name; a leading `@` makes no difference.
pub fn extract_text(doc: &Document, node: usize, extractor: &str) -> (r: Option<String>)
    requires
        doc.wf(),
        is_element(doc.dom(), node as int),
    ensures
        opt_text(r) == extracted(doc.source(), node as int, extractor@),
{
    let e = strip_at(trim(extractor).as_str());
    if same(e.as_str(), "text") {
        return if_nonempty(whole_text(doc, node));
    }
    if same(e.as_str(), "textNodes") {
        return if_nonempty(get_text_nodes(doc, node));
    }
    if same(e.as_str(), "ownText") {
        return if_nonempty(trim(own_text(doc, node, " ").as_str()));
    }
    if same(e.as_str(), "html") {
        return Some(inner_html(doc, node));
    }
    if same(e.as_str(), "all") {
        return Some(outer_html(doc, node));
    }
    match parse_attr_extractor(e.as_str()) {
        Some(name) => attribute(doc, node, name.as_str()),
        None => attribute(doc, node, e.as_str()),
    }
}

/// The elements of a document that match a CSS selector; none where it cannot
/// be read.
pub open spec fn selected(html: Seq<char>, css: Seq<char>) -> Seq<int> {
    match usable_css(css) {
        Some(c) => css_matches(html, c),
        None => seq![],
    }
}

pub open spec fn selected_under(html: Seq<char>, i: int, css: Seq<char>) -> Seq<int> {
    match usable_css(css) {
        Some(c) => css_matches_under(html, i, c),
        None => seq![],
    }
}

/// Selects the elements of a document by a CSS selector.
pub fn select_css_list(doc: &Document, css: &str) -> (r: Vec<usize>)
    requires
        doc.wf(),
    ensures
        ints(r@) == selected(doc.source(), css@),
        all_elements(doc.dom(), ints(r@)),
{
    match parse_css_selector(css) {
        Some(c) => css_select(doc, c.as_str()),
        None => {
            let r: Vec<usize> = Vec::new();
            assert(ints(r@) =~= seq![]);
            r
        },
    }
}

pub fn select_css_under(doc: &Document, node: usize, css: &str) -> (r: Vec<usize>)
    requires
        doc.wf(),
        is_element(doc.dom(), node as int),
    ensures
        ints(r@) == selected_under(doc.source(), node as int, css@),
        all_elements(doc.dom(), ints(r@)),
{
    match parse_css_selector(css) {
        Some(c) => css_select_under(doc, node, c.as_str()),
        None => {
            let r: Vec<usize> = Vec::new();
            assert(ints(r@) =~= seq![]);
            r
        },
    }
}

/// The element children among the first `n` children.
pub open spec fn element_children(d: Seq<NodeV>, i: int, n: int) -> Seq<int>
    decreases n,
{
    if n <= 0 {
        seq![]
    } else {
        let c = d[i].children[n - 1];
        if d[c].kind is Element {
            element_children(d, i, n - 1).push(c)
        } else {
            element_children(d, i, n - 1)
        }
    }
}

pub fn child_elements(doc: &Document, node: usize) -> (r: Vec<usize>)
    requires
        doc.wf(),
        node < doc.dom().len(),
    ensures
        ints(r@) == element_children(doc.dom(), node as int, doc.dom()[node as int].children.len() as int),
        all_elements(doc.dom(), ints(r@)),
{
    let me = doc.node(node);
    let ghost d = doc.dom();
    let mut r: Vec<usize> = Vec::new();
    let mut k: usize = 0;
    assert(ints(r@) =~= seq![]);
    while k < me.children.len()
        invariant
            k <= me.children.len(),
            doc.wf(),
            d == doc.dom(),
            node < d.len(),
            me.model() == d[node as int],
            all_elements(d, ints(r@)),
            ints(r@) == element_children(d, node as int, k as int),
        decreases me.children.len() - k,
    {
        assert(me.model().children[k as int] == me.children@[k as int]);
        assert(d[node as int].children[k as int] == me.children@[k as int]);
        let c: usize = me.children[k];
        if let Kind::Element(_) = &doc.node(c).kind {
            let ghost before = ints(r@);
            r.push(c);
            assert(ints(r@) =~= before.push(c as int));
        }
        k = k + 1;
    }
    assert(me.model().children.len() == me.children.len());
    r
}

/// Those of the first `n` elements whose own text holds `needle`.
pub open spec fn having_text(d: Seq<NodeV>, s: Seq<int>, needle: Seq<char>, n: int) -> Seq<int>
    decreases n,
{
    if n <= 0 {
        seq![]
    } else if contains_text(own_text_of(d, s[n - 1], seq![]), needle) {
        having_text(d, s, needle, n - 1).push(s[n - 1])
    } else {
        having_text(d, s, needle, n - 1)
    }
}

pub fn filter_by_text(doc: &Document, s: &Vec<usize>, needle: &str, out: &mut Vec<usize>)
    requires
        doc.wf(),
        all_elements(doc.dom(), ints(s@)),
        all_elements(doc.dom(), ints(old(out)@)),
    ensures
        ints(final(out)@) == ints(old(out)@) + having_text(doc.dom(), ints(s@), needle@, s.len() as int),
        all_elements(doc.dom(), ints(final(out)@)),
{
    let ghost base = ints(out@);
    let ghost d = doc.dom();
    let mut k: usize = 0;
    assert(ints(out@) =~= base + having_text(d, ints(s@), needle@, 0));
    while k < s.len()
        invariant
            k <= s.len(),
            doc.wf(),
            d == doc.dom(),
            all_elements(d, ints(s@)),
            all_elements(d, ints(out@)),
            ints(out@) == base + having_text(d, ints(s@), needle@, k as int),
        decreases s.len() - k,
    {
        assert(ints(s@)[k as int] == s@[k as int]);
        let ghost before = ints(out@);
        proof {
            reveal_strlit("");
            assert(""@ =~= seq![]);
        }
        if contains(own_text(doc, s[k], "").as_str(), needle) {
            out.push(s[k]);
            assert(ints(out@) =~= before.push(s@[k as int] as int));
        }
        assert(ints(out@) =~= base + having_text(d, ints(s@), needle@, k + 1));
        k = k + 1;
    }
}

/// What a selector's base matches in a whole document.
pub open spec fn base_matches(html: Seq<char>, base: BaseV) -> Seq<int> {
    match base {
        BaseV::Css(css) => selected(html, css),
        BaseV::Children => seq![],
        BaseV::Text(t) => {
            let all = selected(html, "*"@);
            having_text(dom_of(html), all, t, all.len() as int)
        },
    }
}

/// What a selector's base matches from an element: its descendants by CSS, its
/// element children, or itself and its descendants by their own text.
pub open spec fn base_matches_under(html: Seq<char>, i: int, base: BaseV) -> Seq<int> {
    match base {
        BaseV::Css(css) => selected_under(html, i, css),
        BaseV::Children => element_children(dom_of(html), i, dom_of(html)[i].children.len() as int),
        BaseV::Text(t) => {
            let all = selected_under(html, i, "*"@);
            having_text(dom_of(html), seq![i], t, 1) + having_text(dom_of(html), all, t, all.len() as int)
        },
    }
}

pub open spec fn matches_of(html: Seq<char>, s: SelectorV) -> Seq<int> {
    indexed(base_matches(html, s.base), s)
}

pub open spec fn matches_under(html: Seq<char>, i: int, s: SelectorV) -> Seq<int> {
    indexed(base_matches_under(html, i, s.base), s)
}

pub fn collect_matches(doc: &Document, selector: &ParsedSelector) -> (r: Vec<usize>)
    requires
        doc.wf(),
    ensures
        ints(r@) == matches_of(doc.source(), selector.model()),
        all_elements(doc.dom(), ints(r@)),
{
    let found: Vec<usize> = match &selector.base {
        SelectorBase::Css(css) => select_css_list(doc, css.as_str()),
        SelectorBase::Children => {
            let r: Vec<usize> = Vec::new();
            assert(ints(r@) =~= seq![]);
            r
        },
        SelectorBase::Text(t) => {
            let all = select_css_list(doc, "*");
            let mut r: Vec<usize> = Vec::new();
            let ghost empty = ints(r@);
            filter_by_text(doc, &all, t.as_str(), &mut r);
            assert(ints(r@) =~= having_text(doc.dom(), ints(all@), t@, all.len() as int));
            r
        },
    };
    apply_indices(found, selector, Ghost(doc.dom()))
}

pub fn collect_matches_from_element(doc: &Document, node: usize, selector: &ParsedSelector) -> (r: Vec<usize>)
    requires
        doc.wf(),
        is_element(doc.dom(), node as int),
    ensures
        ints(r@) == matches_under(doc.source(), node as int, selector.model()),
        all_elements(doc.dom(), ints(r@)),
{
    let found: Vec<usize> = match &selector.base {
        SelectorBase::Css(css) => select_css_under(doc, node, css.as_str()),
        SelectorBase::Children => child_elements(doc, node),
        SelectorBase::Text(t) => {
            let all = select_css_under(doc, node, "*");
            let mut me: Vec<usize> = Vec::new();
            me.push(node);
            assert(ints(me@) =~= seq![node as int]);
            let mut r: Vec<usize> = Vec::new();
            filter_by_text(doc, &me, t.as_str(), &mut r);
            assert(ints(r@) =~= having_text(doc.dom(), seq![node as int], t@, 1));
            filter_by_text(doc, &all, t.as_str(), &mut r);
            r
        },
    };
    apply_indices(found, selector, Ghost(doc.dom()))
}

/// What a selector matches from the first `n` elements, one after the other.
pub open spec fn matches_under_all(html: Seq<char>, parents: Seq<int>, s: SelectorV, n: int) -> Seq<int>
    decreases n,
{
    if n <= 0 {
        seq![]
    } else {
        matches_under_all(html, parents, s, n - 1) + matches_under(html, parents[n - 1], s)
    }
}

pub fn collect_from_all(doc: &Document, parents: &Vec<usize>, selector: &ParsedSelector) -> (r: Vec<usize>)
    requires
        doc.wf(),
        all_elements(doc.dom(), ints(parents@)),
    ensures
        ints(r@) == matches_under_all(doc.source(), ints(parents@), selector.model(), parents.len() as int),
        all_elements(doc.dom(), ints(r@)),
{
    let mut r: Vec<usize> = Vec::new();
    let mut k: usize = 0;
    assert(ints(r@) =~= seq![]);
    while k < parents.len()
        invariant
            k <= parents.len(),
            doc.wf(),
            all_elements(doc.dom(), ints(parents@)),
            all_elements(doc.dom(), ints(r@)),
            ints(r@) == matches_under_all(doc.source(), ints(parents@), selector.model(), k as int),
        decreases parents.len() - k,
    {
        assert(ints(parents@)[k as int] == parents@[k as int]);
        let mut found = collect_matches_from_element(doc, parents[k], selector);
        let ghost before = ints(r@);
        let ghost more = ints(found@);
        r.append(&mut found);
        assert(ints(r@) =~= before + more);
        k = k + 1;
    }
    r
}

/// Whether a step of a chain takes a value and not elements.
pub open spec fn takes_value(part: Seq<char>) -> bool {
    let s = without_at(trim_of(part));
    ||| s == "text"@
    ||| s == "textNodes"@
    ||| s == "ownText"@
    ||| s == "html"@
    ||| s == "all"@
    ||| s == "src"@
    ||| s == "href"@
    ||| has_prefix(s, "attr["@)
}

pub fn is_value_extractor(part: &str) -> (r: bool)
    ensures
        r == takes_value(part@),
{
    let s = strip_at(trim(part).as_str());
    let s = s.as_str();
    same(s, "text") || same(s, "textNodes") || same(s, "ownText") || same(s, "html") || same(s, "all") || same(
        s,
        "src",
    ) || same(s, "href") || starts_with(s, "attr[")
}

/// The elements that the steps of a chain lead to, from step `k` on: the first
/// step selects in the document, every other one from the elements before it.
/// A value extractor ends the chain, and so does a step without matches.
pub open spec fn chain_from(html: Seq<char>, parts: Seq<Seq<char>>, k: int, current: Seq<int>, first: bool) -> Seq<int>
    decreases parts.len() - k,
{
    if k < 0 || k >= parts.len() {
        current
    } else {
        let part = trim_of(parts[k]);
        if part.len() == 0 {
            chain_from(html, parts, k + 1, current, first)
        } else if takes_value(part) {
            current
        } else {
            let s = selector_of(part);
            let next = if first {
                matches_of(html, s)
            } else {
                matches_under_all(html, current, s, current.len() as int)
            };
            if next.len() == 0 {
                next
            } else {
                chain_from(html, parts, k + 1, next, false)
            }
        }
    }
}

pub open spec fn chain_marks() -> Seq<Seq<char>> {
    seq!["@"@, "@@"@]
}

/// The elements that a chain of selectors leads to.
pub open spec fn chain_of(html: Seq<char>, rule: Seq<char>) -> Seq<int> {
    let t = trim_of(rule);
    let r = match strip_prefix_of(t, "@@"@) {
        Some(x) => x,
        None => t,
    };
    if t.len() == 0 {
        seq![]
    } else {
        chain_from(html, split_result(r, chain_marks()), 0, seq![], true)
    }
}

pub fn select_chain(doc: &Document, rule: &str) -> (r: Vec<usize>)
    requires
        doc.wf(),
    ensures
        ints(r@) == chain_of(doc.source(), rule@),
        all_elements(doc.dom(), ints(r@)),
{
    let t = trim(rule);
    let mut current: Vec<usize> = Vec::new();
    assert(ints(current@) =~= seq![]);
    if is_empty_text(t.as_str()) {
        return current;
    }
    let stripped = match strip_prefix(t.as_str(), "@@") {
        Some(x) => x,
        None => t,
    };
    proof {
        reveal_strlit("@");
        reveal_strlit("@@");
    }
    let list = ["@", "@@"];
    assert(strs(list@) =~= chain_marks());
    let parts = split_top_level(stripped.as_str(), &list).parts;
    let ghost all = split_result(stripped@, chain_marks());
    let mut first = true;
    let mut k: usize = 0;
    while k < parts.len()
        invariant
            k <= parts.len(),
            doc.wf(),
            all == texts(parts@),
            all_elements(doc.dom(), ints(current@)),
            chain_of(doc.source(), rule@) == chain_from(doc.source(), all, k as int, ints(current@), first),
        decreases parts.len() - k,
    {
        assert(all[k as int] == parts@[k as int]@);
        let part = trim(parts[k].as_str());
        if !is_empty_text(part.as_str()) {
            if is_value_extractor(part.as_str()) {
                return current;
            }
            let parsed = parse_selector_with_index(part.as_str());
            assert(ints(current@).len() == current.len());
            current = if first {
                collect_matches(doc, &parsed)
            } else {
                collect_from_all(doc, &current, &parsed)
            };
            first = false;
            if current.len() == 0 {
                assert(ints(current@).len() == 0);
                return current;
            }
            assert(ints(current@).len() > 0);
        }
        k = k + 1;
    }
    current
}

/// The results of rules joined by an operator, for the first `n` of them:
/// `&&` takes all, `||` the first that has any.
pub open spec fn joined<T>(groups: Seq<Seq<T>>, op: Seq<char>, n: int) -> Seq<T>
    decreases n,
{
    if n <= 1 {
        groups[0]
    } else {
        let before = joined(groups, op, n - 1);
        if op == "&&"@ {
            before + groups[n - 1]
        } else if op == "||"@ && before.len() == 0 {
            groups[n - 1]
        } else {
            before
        }
    }
}

/// The results of rules joined by `&&`, `||` or `%%`.
pub open spec fn combined<T>(groups: Seq<Seq<T>>, op: Seq<char>) -> Seq<T> {
    if op == "%%"@ {
        interleaved(groups)
    } else {
        joined(groups, op, groups.len() as int)
    }
}

/// Joins the results of rules as their operator says.
pub fn combine_groups<T>(groups: Vec<Vec<T>>, op: &str) -> (r: Vec<T>)
    requires
        groups.len() > 0,
    ensures
        r@ == combined(lists_of(groups@), op@),
{
    if same(op, "%%") {
        return interleave_result_groups(groups);
    }
    let ghost all = lists_of(groups@);
    let all_of = same(op, "&&");
    let any_of = same(op, "||");
    let mut groups = groups;
    let total: usize = groups.len();
    let mut r: Vec<T> = groups.remove(0);
    let mut n: usize = 1;
    assert(r@ == all[0]);
    while n < total
        invariant
            1 <= n <= total,
            total == all.len(),
            groups.len() == total - n,
            all_of == (op@ == "&&"@),
            any_of == (op@ == "||"@),
            forall|k: int| 0 <= k < groups.len() ==> (#[trigger] groups@[k])@ == all[n + k],
            r@ == joined(all, op@, n as int),
        decreases total - n,
    {
        let mut next = groups.remove(0);
        assert(next@ == all[n as int]);
        if all_of {
            r.append(&mut next);
        } else if any_of && r.len() == 0 {
            r = next;
        }
        n = n + 1;
    }
    r
}

pub open spec fn chain_groups(html: Seq<char>, parts: Seq<Seq<char>>) -> Seq<Seq<int>> {
    Seq::new(parts.len(), |i: int| chain_of(html, parts[i]))
}

/// Without an operator only the first rule counts.
pub open spec fn operator_of(d: Option<Seq<char>>) -> Seq<char> {
    match d {
        Some(x) => x,
        None => seq![],
    }
}

/// The elements that a list rule selects.
pub open spec fn list_of(html: Seq<char>, rule: Seq<char>) -> Seq<int> {
    combined(
        chain_groups(html, split_result(trim_of(rule), combination_marks())),
        operator_of(split_delimiter(trim_of(rule), combination_marks())),
    )
}

proof fn lemma_ints_combined(groups: Seq<Vec<usize>>, op: Seq<char>, r: Seq<usize>)
    requires
        groups.len() > 0,
        r == combined(lists_of(groups), op),
    ensures
        ints(r) == combined(int_groups(groups), op),
{
    let g = lists_of(groups);
    let h = int_groups(groups);
    if op == "%%"@ {
        lemma_columns_map(g, h, g[0].len() as int);
    } else {
        lemma_joined_map(g, h, op, g.len() as int);
    }
}

/// Interleaving lists of positions interleaves their views.
pub proof fn lemma_ints_interleaved(groups: Seq<Vec<usize>>, r: Seq<usize>)
    requires
        groups.len() > 0,
        r == interleaved(lists_of(groups)),
    ensures
        ints(r) == interleaved(int_groups(groups)),
{
    lemma_columns_map(lists_of(groups), int_groups(groups), groups[0]@.len() as int);
}

pub open spec fn int_groups(groups: Seq<Vec<usize>>) -> Seq<Seq<int>> {
    Seq::new(groups.len(), |i: int| ints(groups[i]@))
}

proof fn lemma_column_map(g: Seq<Seq<usize>>, h: Seq<Seq<int>>, j: int)
    requires
        g.len() == h.len(),
        forall|i: int| 0 <= i < g.len() ==> #[trigger] h[i] == ints(g[i]),
        0 <= j,
    ensures
        ints(crate::parser::rule_analyzer::column(g, j)) == crate::parser::rule_analyzer::column(h, j),
    decreases g.len(),
{
    if g.len() > 0 {
        lemma_column_map(g.drop_last(), h.drop_last(), j);
        assert(h[g.len() - 1] == ints(g[g.len() - 1]));
    }
    assert(ints(crate::parser::rule_analyzer::column(g, j)) =~= crate::parser::rule_analyzer::column(h, j));
}

proof fn lemma_columns_map(g: Seq<Seq<usize>>, h: Seq<Seq<int>>, n: int)
    requires
        g.len() == h.len(),
        forall|i: int| 0 <= i < g.len() ==> #[trigger] h[i] == ints(g[i]),
    ensures
        ints(crate::parser::rule_analyzer::columns(g, n)) == crate::parser::rule_analyzer::columns(h, n),
    decreases n,
{
    if n > 0 {
        lemma_columns_map(g, h, n - 1);
        lemma_column_map(g, h, n - 1);
    }
    assert(ints(crate::parser::rule_analyzer::columns(g, n)) =~= crate::parser::rule_analyzer::columns(h, n));
}

proof fn lemma_joined_map(g: Seq<Seq<usize>>, h: Seq<Seq<int>>, op: Seq<char>, n: int)
    requires
        g.len() == h.len(),
        0 < n <= g.len(),
        forall|i: int| 0 <= i < g.len() ==> #[trigger] h[i] == ints(g[i]),
    ensures
        ints(joined(g, op, n)) == joined(h, op, n),
    decreases n,
{
    assert(h[n - 1] == ints(g[n - 1]));
    if n > 1 {
        lemma_joined_map(g, h, op, n - 1);
        assert(ints(joined(g, op, n - 1)).len() == joined(g, op, n - 1).len());
        assert(ints(joined(g, op, n - 1) + g[n - 1]) =~= ints(joined(g, op, n - 1)) + ints(g[n - 1]));
    } else {
        assert(h[0] == ints(g[0]));
    }
}

proof fn lemma_column_elements(d: Seq<NodeV>, h: Seq<Seq<int>>, j: int)
    requires
        forall|i: int| 0 <= i < h.len() ==> all_elements(d, #[trigger] h[i]),
    ensures
        all_elements(d, crate::parser::rule_analyzer::column(h, j)),
    decreases h.len(),
{
    if h.len() > 0 {
        lemma_column_elements(d, h.drop_last(), j);
        assert(all_elements(d, h[h.len() - 1]));
    }
}

proof fn lemma_combined_elements(d: Seq<NodeV>, h: Seq<Seq<int>>, op: Seq<char>, n: int)
    requires
        h.len() > 0,
        n <= h.len(),
        forall|i: int| 0 <= i < h.len() ==> all_elements(d, #[trigger] h[i]),
    ensures
        all_elements(d, joined(h, op, n)),
    decreases n,
{
    if n > 1 {
        lemma_combined_elements(d, h, op, n - 1);
        assert(all_elements(d, h[n - 1]));
    } else {
        assert(all_elements(d, h[0]));
    }
}

proof fn lemma_columns_elements(d: Seq<NodeV>, h: Seq<Seq<int>>, n: int)
    requires
        forall|i: int| 0 <= i < h.len() ==> all_elements(d, #[trigger] h[i]),
    ensures
        all_elements(d, crate::parser::rule_analyzer::columns(h, n)),
    decreases n,
{
    if n > 0 {
        lemma_columns_elements(d, h, n - 1);
        lemma_column_elements(d, h, n - 1);
    }
}

/// Selects elements by a list rule: chains of selectors joined by `&&`, `||` or `%%`.
pub fn select_list(doc: &Document, selector: &str) -> (r: Vec<usize>)
    requires
        doc.wf(),
    ensures
        ints(r@) == list_of(doc.source(), selector@),
        all_elements(doc.dom(), ints(r@)),
{
    let s = trim(selector);
    let split = split_combination(s.as_str());
    let parts = split.parts;
    let op = match split.delimiter {
        Some(x) => x,
        None => String::new(),
    };
    let ghost all = split_result(s@, combination_marks());
    let mut groups: Vec<Vec<usize>> = Vec::new();
    let mut k: usize = 0;
    while k < parts.len()
        invariant
            k <= parts.len(),
            doc.wf(),
            all == texts(parts@),
            groups.len() == k,
            forall|i: int| 0 <= i < k ==> ints((#[trigger] groups@[i])@) == chain_of(doc.source(), all[i])
                && all_elements(doc.dom(), ints(groups@[i]@)),
        decreases parts.len() - k,
    {
        assert(all[k as int] == parts@[k as int]@);
        groups.push(select_chain(doc, parts[k].as_str()));
        k = k + 1;
    }
    let ghost gs = groups@;
    let r = combine_groups(groups, op.as_str());
    proof {
        assert(op@ =~= operator_of(split_delimiter(s@, combination_marks())));
        assert(int_groups(gs) =~= chain_groups(doc.source(), all));
        lemma_ints_combined(gs, op@, r@);
        assert forall|i: int| 0 <= i < int_groups(gs).len() implies all_elements(
            doc.dom(),
            #[trigger] int_groups(gs)[i],
        ) by {
            assert(all_elements(doc.dom(), ints(gs[i]@)));
        }
        lemma_columns_elements(doc.dom(), int_groups(gs), int_groups(gs)[0].len() as int);
        lemma_combined_elements(doc.dom(), int_groups(gs), op@, gs.len() as int);
    }
    r
}

/// The first value that an extractor gives, from the `k`-th element on.
pub open spec fn first_extracted(html: Seq<char>, s: Seq<int>, extractor: Seq<char>, k: int) -> Option<Seq<char>>
    decreases s.len() - k,
{
    if k < 0 || k >= s.len() {
        None
    } else {
        match extracted(html, s[k], extractor) {
            Some(v) => Some(v),
            None => first_extracted(html, s, extractor, k + 1),
        }
    }
}

pub fn first_text(doc: &Document, s: &Vec<usize>, extractor: &str) -> (r: Option<String>)
    requires
        doc.wf(),
        all_elements(doc.dom(), ints(s@)),
    ensures
        opt_text(r) == first_extracted(doc.source(), ints(s@), extractor@, 0),
{
    let mut k: usize = 0;
    while k < s.len()
        invariant
            k <= s.len(),
            doc.wf(),
            all_elements(doc.dom(), ints(s@)),
            first_extracted(doc.source(), ints(s@), extractor@, 0) == first_extracted(
                doc.source(),
                ints(s@),
                extractor@,
                k as int,
            ),
        decreases s.len() - k,
    {
        assert(ints(s@)[k as int] == s@[k as int]);
        if let Some(v) = extract_text(doc, s[k], extractor) {
            return Some(v);
        }
        k = k + 1;
    }
    None
}

/// The value that a chain leads to from a list of elements: every step but the
/// last selects, the last extracts; a chain that ends in blanks extracts text.
pub open spec fn value_from(html: Seq<char>, parts: Seq<Seq<char>>, k: int, current: Seq<int>) -> Option<Seq<char>>
    decreases parts.len() - k,
{
    if k < 0 || k >= parts.len() {
        first_extracted(html, current, "text"@, 0)
    } else {
        let part = trim_of(parts[k]);
        if part.len() == 0 {
            value_from(html, parts, k + 1, current)
        } else if k == parts.len() - 1 {
            first_extracted(html, current, part, 0)
        } else {
            let next = matches_under_all(html, current, selector_of(part), current.len() as int);
            if next.len() == 0 {
                None
            } else {
                value_from(html, parts, k + 1, next)
            }
        }
    }
}

/// The value that a rule takes from element `i`.
pub open spec fn element_value(html: Seq<char>, i: int, rule: Seq<char>) -> Option<Seq<char>> {
    value_from(html, split_result(rule, at_mark()), 0, seq![i])
}

/// Takes one value from an element by a chain of selectors and an extractor.
pub fn select_text_from_element(doc: &Document, node: usize, rule: &str) -> (r: Option<String>)
    requires
        doc.wf(),
        is_element(doc.dom(), node as int),
    ensures
        opt_text(r) == element_value(doc.source(), node as int, rule@),
{
    let parts = split_at_sign(rule);
    let ghost all = split_result(rule@, at_mark());
    let mut current: Vec<usize> = Vec::new();
    current.push(node);
    assert(ints(current@) =~= seq![node as int]);
    let mut k: usize = 0;
    while k < parts.len()
        invariant
            k <= parts.len(),
            doc.wf(),
            all == texts(parts@),
            all_elements(doc.dom(), ints(current@)),
            element_value(doc.source(), node as int, rule@) == value_from(
                doc.source(),
                all,
                k as int,
                ints(current@),
            ),
        decreases parts.len() - k,
    {
        assert(all[k as int] == parts@[k as int]@);
        assert(all.len() == parts.len());
        let part = trim(parts[k].as_str());
        if !is_empty_text(part.as_str()) {
            if k == parts.len() - 1 {
                return first_text(doc, &current, part.as_str());
            }
            assert(ints(current@).len() == current.len());
            current = collect_from_all(doc, &current, &parse_selector_with_index(part.as_str()));
            assert(ints(current@).len() == current.len());
            if current.len() == 0 {
                return None;
            }
        }
        k = k + 1;
    }
    first_text(doc, &current, "text")
}

/// The texts of the first `n` elements that an extractor gives and that are not blank.
pub open spec fn filled_texts(html: Seq<char>, s: Seq<int>, extractor: Seq<char>, n: int) -> Seq<Seq<char>>
    decreases n,
{
    if n <= 0 {
        seq![]
    } else {
        match extracted(html, s[n - 1], extractor) {
            Some(t) => if t.len() > 0 {
                filled_texts(html, s, extractor, n - 1).push(t)
            } else {
                filled_texts(html, s, extractor, n - 1)
            },
            None => filled_texts(html, s, extractor, n - 1),
        }
    }
}

pub fn collect_filled(doc: &Document, s: &Vec<usize>, extractor: &str, out: &mut Vec<String>)
    requires
        doc.wf(),
        all_elements(doc.dom(), ints(s@)),
    ensures
        texts(final(out)@) == texts(old(out)@) + filled_texts(doc.source(), ints(s@), extractor@, s.len() as int),
{
    let ghost base = texts(out@);
    let mut k: usize = 0;
    assert(texts(out@) =~= base + filled_texts(doc.source(), ints(s@), extractor@, 0));
    while k < s.len()
        invariant
            k <= s.len(),
            doc.wf(),
            all_elements(doc.dom(), ints(s@)),
            texts(out@) == base + filled_texts(doc.source(), ints(s@), extractor@, k as int),
        decreases s.len() - k,
    {
        assert(ints(s@)[k as int] == s@[k as int]);
        let ghost before = texts(out@);
        if let Some(t) = extract_text(doc, s[k], extractor) {
            if !is_empty_text(t.as_str()) {
                let ghost x = t@;
                out.push(t);
                assert(texts(out@) =~= before.push(x));
            }
        }
        assert(texts(out@) =~= base + filled_texts(doc.source(), ints(s@), extractor@, k + 1));
        k = k + 1;
    }
}

/// What one root adds to the text of a rule: the value that the rest of the
/// rule extracts, or the texts of the elements that it selects.
pub open spec fn root_texts(html: Seq<char>, root: int, rest: Seq<char>) -> Seq<Seq<char>> {
    match extracted(html, root, trim_of(rest)) {
        Some(t) => if t.len() > 0 {
            seq![t]
        } else {
            seq![]
        },
        None => {
            let found = matches_under(html, root, selector_of(trim_of(rest)));
            filled_texts(html, found, "text"@, found.len() as int)
        },
    }
}

pub open spec fn roots_texts(html: Seq<char>, roots: Seq<int>, rest: Seq<char>, n: int) -> Seq<Seq<char>>
    decreases n,
{
    if n <= 0 {
        seq![]
    } else {
        roots_texts(html, roots, rest, n - 1) + root_texts(html, roots[n - 1], rest)
    }
}

/// The texts that a rule selects in a document, one per line; `None` where
/// there is none.
pub open spec fn all_text_of(html: Seq<char>, rule: Seq<char>) -> Option<Seq<char>> {
    let parts = split_result(rule, at_mark());
    let roots = matches_of(html, selector_of(trim_of(parts[0])));
    let found = if parts.len() > 1 {
        roots_texts(html, roots, join_of(parts.subrange(1, parts.len() as int), "@"@), roots.len() as int)
    } else {
        filled_texts(html, roots, "textNodes"@, roots.len() as int)
    };
    if found.len() == 0 {
        None
    } else {
        Some(join_of(found, "\n"@))
    }
}

/// The parts after the first, joined with `@` again.
fn rest_of_parts(parts: &Vec<String>) -> (r: String)
    requires
        parts.len() > 0,
    ensures
        r@ == join_of(texts(parts@).subrange(1, parts.len() as int), "@"@),
{
    let mut rest: Vec<String> = Vec::new();
    let mut k: usize = 1;
    let ghost all = texts(parts@);
    assert(texts(rest@) =~= all.subrange(1, 1));
    while k < parts.len()
        invariant
            1 <= k <= parts.len(),
            all == texts(parts@),
            texts(rest@) == all.subrange(1, k as int),
        decreases parts.len() - k,
    {
        let ghost before = texts(rest@);
        rest.push(parts[k].clone());
        assert(texts(rest@) =~= before.push(parts@[k as int]@));
        assert(texts(rest@) =~= all.subrange(1, k + 1));
        k = k + 1;
    }
    join(&rest, "@")
}

/// Selects the elements of a rule and collects their text, joined by newlines.
pub fn select_all_text(doc: &Document, rule: &str) -> (r: Option<String>)
    requires
        doc.wf(),
    ensures
        opt_text(r) == all_text_of(doc.source(), rule@),
{
    let parts = split_at_sign(rule);
    let ghost all = split_result(rule@, at_mark());
    assert(all[0] == parts@[0]@);
    assert(all.len() == parts.len());
    let roots = collect_matches(doc, &parse_selector_with_index(trim(parts[0].as_str()).as_str()));
    assert(ints(roots@).len() == roots.len());
    let mut found: Vec<String> = Vec::new();
    assert(texts(found@) =~= seq![]);
    if parts.len() > 1 {
        let rest = rest_of_parts(&parts);
        let mut k: usize = 0;
        while k < roots.len()
            invariant
                k <= roots.len(),
                doc.wf(),
                all_elements(doc.dom(), ints(roots@)),
                texts(found@) == roots_texts(doc.source(), ints(roots@), rest@, k as int),
            decreases roots.len() - k,
        {
            assert(ints(roots@)[k as int] == roots@[k as int]);
            let ghost before = texts(found@);
            let last = trim(rest.as_str());
            if let Some(t) = extract_text(doc, roots[k], last.as_str()) {
                if !is_empty_text(t.as_str()) {
                    let ghost x = t@;
                    found.push(t);
                    assert(texts(found@) =~= before + seq![x]);
                } else {
                    assert(texts(found@) =~= before + seq![]);
                }
            } else {
                let below = collect_matches_from_element(
                    doc,
                    roots[k],
                    &parse_selector_with_index(last.as_str()),
                );
                assert(ints(below@).len() == below.len());
                collect_filled(doc, &below, "text", &mut found);
            }
            k = k + 1;
        }
    } else {
        collect_filled(doc, &roots, "textNodes", &mut found);
        assert(texts(found@) =~= filled_texts(doc.source(), ints(roots@), "textNodes"@, roots.len() as int));
    }
    assert(texts(found@).len() == found.len());
    if found.len() == 0 {
        return None;
    }
    Some(join(&found, "\n"))
}

/// The values that the first `n` elements give by the rest of a rule.
pub open spec fn rest_values(html: Seq<char>, s: Seq<int>, rest: Option<Seq<char>>, n: int) -> Seq<Seq<char>>
    decreases n,
{
    if n <= 0 {
        seq![]
    } else {
        let before = rest_values(html, s, rest, n - 1);
        match rest {
            Some(rule) => match element_value(html, s[n - 1], rule) {
                Some(v) => before.push(v),
                None => before,
            },
            None => match extracted(html, s[n - 1], "text"@) {
                Some(v) => before.push(v),
                None => before.push(seq![]),
            },
        }
    }
}

/// The values of a rule without operators: the first step selects elements, the
/// rest takes one value of each; without a rest it is the element's text, blank
/// where it has none.
pub open spec fn plain_text_list(html: Seq<char>, rule: Seq<char>) -> Seq<Seq<char>> {
    let parts = split_result(rule, at_mark());
    let s = matches_of(html, selector_of(trim_of(parts[0])));
    let rest = if parts.len() > 1 {
        Some(join_of(parts.subrange(1, parts.len() as int), "@"@))
    } else {
        None
    };
    rest_values(html, s, rest, s.len() as int)
}

pub fn plain_texts(doc: &Document, rule: &str) -> (r: Vec<String>)
    requires
        doc.wf(),
    ensures
        texts(r@) == plain_text_list(doc.source(), rule@),
{
    let parts = split_at_sign(rule);
    let ghost all = split_result(rule@, at_mark());
    assert(all[0] == parts@[0]@);
    assert(all.len() == parts.len());
    let found = collect_matches(doc, &parse_selector_with_index(trim(parts[0].as_str()).as_str()));
    assert(ints(found@).len() == found.len());
    let rest: Option<String> = if parts.len() > 1 {
        Some(rest_of_parts(&parts))
    } else {
        None
    };
    let mut r: Vec<String> = Vec::new();
    let mut k: usize = 0;
    assert(texts(r@) =~= seq![]);
    while k < found.len()
        invariant
            k <= found.len(),
            doc.wf(),
            all_elements(doc.dom(), ints(found@)),
            texts(r@) == rest_values(doc.source(), ints(found@), opt_text(rest), k as int),
        decreases found.len() - k,
    {
        assert(ints(found@)[k as int] == found@[k as int]);
        let ghost before = texts(r@);
        match &rest {
            Some(rule) => {
                if let Some(v) = select_text_from_element(doc, found[k], rule.as_str()) {
                    let ghost x = v@;
                    r.push(v);
                    assert(texts(r@) =~= before.push(x));
                }
            },
            None => {
                let v = match extract_text(doc, found[k], "text") {
                    Some(v) => v,
                    None => String::new(),
                };
                let ghost x = v@;
                r.push(v);
                assert(texts(r@) =~= before.push(x));
                assert(extracted(doc.source(), ints(found@)[k as int], "text"@) is None ==> x =~= seq![]);
            },
        }
        k = k + 1;
    }
    r
}

pub open spec fn chain_mark() -> Seq<Seq<char>> {
    seq!["@@"@]
}

/// The values that a rule selects in a document. Rules joined by `&&`, `||` or
/// `%%` are combined; in a chain `a@@b`, every value of `a` is parsed as a
/// document that `b` selects in.
///
/// The parts that a rule is split into are shorter than the rule.
pub open spec fn text_list(html: Seq<char>, rule: Seq<char>) -> Seq<Seq<char>>
    decreases rule.len(), 2int, 0int,
{
    match split_delimiter(rule, combination_marks()) {
        Some(op) => {
            let parts = split_result(rule, combination_marks());
            combined(text_list_groups(html, parts, parts.len() as int, rule.len()), op)
        },
        None => if split_delimiter(rule, chain_mark()) is Some {
            let parts = split_result(rule, chain_mark());
            if parts[0].len() < rule.len() {
                chained_texts(text_list(html, parts[0]), parts, 1, rule.len())
            } else {
                seq![]
            }
        } else {
            plain_text_list(html, rule)
        },
    }
}

/// The values of the first `n` parts of a rule.
pub open spec fn text_list_groups(html: Seq<char>, parts: Seq<Seq<char>>, n: int, bound: nat) -> Seq<Seq<Seq<char>>>
    decreases bound, 0int, n,
{
    if n <= 0 {
        seq![]
    } else {
        let before = text_list_groups(html, parts, n - 1, bound);
        if parts[n - 1].len() < bound {
            before.push(text_list(html, parts[n - 1]))
        } else {
            before.push(seq![])
        }
    }
}

pub open spec fn chained_texts(current: Seq<Seq<char>>, rules: Seq<Seq<char>>, k: int, bound: nat) -> Seq<Seq<char>>
    decreases bound, 1int, rules.len() - k,
{
    if k < 0 || k >= rules.len() || current.len() == 0 {
        current
    } else {
        chained_texts(texts_in_all(current, rules[k], current.len() as int, bound), rules, k + 1, bound)
    }
}

pub open spec fn texts_in_all(docs: Seq<Seq<char>>, rule: Seq<char>, n: int, bound: nat) -> Seq<Seq<char>>
    decreases bound, 0int, n,
{
    if n <= 0 || rule.len() >= bound {
        seq![]
    } else {
        texts_in_all(docs, rule, n - 1, bound) + text_list(docs[n - 1], rule)
    }
}

/// Selects the values of a rule in a document.
pub fn select_text_list(doc: &Document, rule: &str) -> (r: Vec<String>)
    requires
        doc.wf(),
    ensures
        texts(r@) == text_list(doc.source(), rule@),
    decreases rule@.len(),
{
    let combo = split_combination(rule);
    proof {
        reveal_strlit("&&");
        reveal_strlit("||");
        reveal_strlit("%%");
        reveal_strlit("@@");
    }
    if let Some(op) = combo.delimiter {
        let parts = combo.parts;
        let ghost all = split_result(rule@, combination_marks());
        proof {
            lemma_parts_shorter(rule@, combination_marks());
        }
        let mut groups: Vec<Vec<String>> = Vec::new();
        let mut k: usize = 0;
        while k < parts.len()
            invariant
                k <= parts.len(),
                doc.wf(),
                all == texts(parts@),
                forall|i: int| 0 <= i < all.len() ==> (#[trigger] all[i]).len() < rule@.len(),
                groups.len() == k,
                text_groups(groups@) == text_list_groups(doc.source(), all, k as int, rule@.len()),
            decreases parts.len() - k,
        {
            assert(all[k as int] == parts@[k as int]@);
            let found = select_text_list(doc, parts[k].as_str());
            let ghost before = text_groups(groups@);
            let ghost x = texts(found@);
            groups.push(found);
            assert(text_groups(groups@) =~= before.push(x));
            k = k + 1;
        }
        assert(all.len() == parts.len());
        let ghost gs = groups@;
        let r = combine_groups(groups, op.as_str());
        proof {
            lemma_texts_combined(gs, op@, r@);
        }
        return r;
    }
    let list = ["@@"];
    assert(strs(list@) =~= chain_mark());
    let chain = split_top_level(rule, &list);
    if chain.delimiter.is_some() {
        let rules = chain.parts;
        let ghost all = split_result(rule@, chain_mark());
        proof {
            lemma_parts_shorter(rule@, chain_mark());
            lemma_parts_nonempty(rule@, chain_mark());
            assert(all.len() == rules.len());
            assert(all[0] == rules@[0]@);
        }
        let mut current = select_text_list(doc, rules[0].as_str());
        let mut k: usize = 1;
        while k < rules.len()
            invariant
                1 <= k <= rules.len(),
                all == texts(rules@),
                forall|i: int| 0 <= i < all.len() ==> (#[trigger] all[i]).len() < rule@.len(),
                text_list(doc.source(), rule@) == chained_texts(texts(current@), all, k as int, rule@.len()),
            decreases rules.len() - k,
        {
            assert(all[k as int] == rules@[k as int]@);
            assert(texts(current@).len() == current.len());
            if current.len() == 0 {
                return current;
            }
            let mut next: Vec<String> = Vec::new();
            let mut j: usize = 0;
            assert(texts(next@) =~= seq![]);
            while j < current.len()
                invariant
                    j <= current.len(),
                    k < rules.len(),
                    rules@[k as int]@.len() < rule@.len(),
                    texts(next@) == texts_in_all(texts(current@), rules@[k as int]@, j as int, rule@.len()),
                decreases current.len() - j,
            {
                assert(texts(current@)[j as int] == current@[j as int]@);
                let sub = parse_document(current[j].as_str());
                let mut more = select_text_list(&sub, rules[k].as_str());
                let ghost before = texts(next@);
                let ghost added = texts(more@);
                next.append(&mut more);
                assert(texts(next@) =~= before + added);
                j = j + 1;
            }
            current = next;
            k = k + 1;
        }
        assert(all.len() == rules.len());
        return current;
    }
    plain_texts(doc, rule)
}

pub open spec fn text_groups(groups: Seq<Vec<String>>) -> Seq<Seq<Seq<char>>> {
    Seq::new(groups.len(), |i: int| texts(groups[i]@))
}

proof fn lemma_texts_column(g: Seq<Seq<String>>, h: Seq<Seq<Seq<char>>>, j: int)
    requires
        g.len() == h.len(),
        forall|i: int| 0 <= i < g.len() ==> #[trigger] h[i] == texts(g[i]),
        0 <= j,
    ensures
        texts(crate::parser::rule_analyzer::column(g, j)) == crate::parser::rule_analyzer::column(h, j),
    decreases g.len(),
{
    if g.len() > 0 {
        lemma_texts_column(g.drop_last(), h.drop_last(), j);
        assert(h[g.len() - 1] == texts(g[g.len() - 1]));
    }
    assert(texts(crate::parser::rule_analyzer::column(g, j)) =~= crate::parser::rule_analyzer::column(h, j));
}

proof fn lemma_texts_columns(g: Seq<Seq<String>>, h: Seq<Seq<Seq<char>>>, n: int)
    requires
        g.len() == h.len(),
        forall|i: int| 0 <= i < g.len() ==> #[trigger] h[i] == texts(g[i]),
    ensures
        texts(crate::parser::rule_analyzer::columns(g, n)) == crate::parser::rule_analyzer::columns(h, n),
    decreases n,
{
    if n > 0 {
        lemma_texts_columns(g, h, n - 1);
        lemma_texts_column(g, h, n - 1);
    }
    assert(texts(crate::parser::rule_analyzer::columns(g, n)) =~= crate::parser::rule_analyzer::columns(h, n));
}

proof fn lemma_texts_joined(g: Seq<Seq<String>>, h: Seq<Seq<Seq<char>>>, op: Seq<char>, n: int)
    requires
        g.len() == h.len(),
        0 < n <= g.len(),
        forall|i: int| 0 <= i < g.len() ==> #[trigger] h[i] == texts(g[i]),
    ensures
        texts(joined(g, op, n)) == joined(h, op, n),
    decreases n,
{
    assert(h[n - 1] == texts(g[n - 1]));
    if n > 1 {
        lemma_texts_joined(g, h, op, n - 1);
        assert(texts(joined(g, op, n - 1)).len() == joined(g, op, n - 1).len());
        assert(texts(joined(g, op, n - 1) + g[n - 1]) =~= texts(joined(g, op, n - 1)) + texts(g[n - 1]));
    } else {
        assert(h[0] == texts(g[0]));
    }
}

/// Combining lists of strings combines their views.
pub proof fn lemma_texts_combined(groups: Seq<Vec<String>>, op: Seq<char>, r: Seq<String>)
    requires
        groups.len() > 0,
        r == combined(lists_of(groups), op),
    ensures
        texts(r) == combined(text_groups(groups), op),
{
    let g = lists_of(groups);
    let h = text_groups(groups);
    if op == "%%"@ {
        lemma_texts_columns(g, h, g[0].len() as int);
    } else {
        lemma_texts_joined(g, h, op, g.len() as int);
    }
}

/// The first value that a rule selects.
pub open spec fn first_of(list: Seq<Seq<char>>) -> Option<Seq<char>> {
    if list.len() > 0 {
        Some(list[0])
    } else {
        None
    }
}

/// The first of a list of strings.
pub fn first_string(list: Vec<String>) -> (r: Option<String>)
    ensures
        opt_text(r) == first_of(texts(list@)),
{
    let mut list = list;
    if list.len() == 0 {
        return None;
    }
    assert(texts(list@)[0] == list@[0]@);
    Some(list.remove(0))
}

/// Selects the first value of a rule in a document.
pub fn select_text(doc: &Document, rule: &str) -> (r: Option<String>)
    requires
        doc.wf(),
    ensures
        opt_text(r) == first_of(text_list(doc.source(), rule@)),
{
    first_string(select_text_list(doc, rule))
}

} // verus!
