//! Which pages belong to a chapter, and what is replaced in its text.

use crate::crawler::http::{is_same_origin, same_origin};
use crate::ext::urls::{parse_url, url_read, UrlParts, UrlV};
use crate::model::replace_rule::{replace_models, ReplaceRule, ReplaceV};
use crate::parser::source_rule::{apply_legado_regex, regex_applied};
use crate::util::chars::{
    all_digits, chars_of, concat, concat3, contains, contains_text, copy, has_prefix, is_digit_char, is_empty_text,
    replace, replace_of, rsplit_once, rsplit_once_of, same, split_once, split_once_of, starts_with,
};
use vstd::prelude::*;
use vstd::string::*;

verus! {

/// An address without its fragment.
pub open spec fn without_fragment(url: Seq<char>) -> Seq<char> {
    match split_once_of(url, "#"@) {
        Some((head, _)) => head,
        None => url,
    }
}

pub fn strip_fragment(url: &str) -> (r: String)
    ensures
        r@ == without_fragment(url@),
{
    match split_once(url, "#") {
        Some((head, _)) => head,
        None => copy(url),
    }
}

/// The name of a page without its extension.
pub open spec fn stem_of(filename: Seq<char>) -> Seq<char> {
    match rsplit_once_of(filename, "."@) {
        Some((stem, _)) => stem,
        None => filename,
    }
}

/// The name of a page without the number after its last hyphen.
pub open spec fn without_page_number(stem: Seq<char>) -> Seq<char> {
    match rsplit_once_of(stem, "-"@) {
        Some((name, number)) => if all_digits(number) {
            name
        } else {
            stem
        },
        None => stem,
    }
}

/// What the pages of one chapter have in common: the path without the
/// extension, and without the page number where that is asked for.
pub open spec fn path_base(path: Seq<char>, numbered: bool) -> Seq<char> {
    let (directory, filename) = match rsplit_once_of(path, "/"@) {
        Some((d, f)) => (d, f),
        None => (seq![], path),
    };
    let stem = if numbered {
        without_page_number(stem_of(filename))
    } else {
        stem_of(filename)
    };
    if directory.len() == 0 {
        stem
    } else {
        directory + "/"@ + stem
    }
}

pub fn only_digits(s: &str) -> (r: bool)
    ensures
        r == all_digits(s@),
{
    let v = chars_of(s);
    let mut k: usize = 0;
    while k < v.len()
        invariant
            v@ == s@,
            k <= v.len(),
            forall|i: int| 0 <= i < k ==> crate::util::chars::is_digit(#[trigger] s@[i]),
        decreases v.len() - k,
    {
        if !is_digit_char(v[k]) {
            return false;
        }
        k = k + 1;
    }
    true
}

pub fn content_path_base(path: &str, strip_page_suffix: bool) -> (r: String)
    ensures
        r@ == path_base(path@, strip_page_suffix),
{
    let (directory, filename) = match rsplit_once(path, "/") {
        Some((d, f)) => (d, f),
        None => {
            let none = String::new();
            assert(none@ =~= seq![]);
            (none, copy(path))
        },
    };
    let name = match rsplit_once(filename.as_str(), ".") {
        Some((s, _)) => s,
        None => filename,
    };
    let stem = if strip_page_suffix {
        match rsplit_once(name.as_str(), "-") {
            Some((head, number)) => if only_digits(number.as_str()) {
                head
            } else {
                name
            },
            None => name,
        }
    } else {
        name
    };
    if is_empty_text(directory.as_str()) {
        stem
    } else {
        concat3(directory.as_str(), "/", stem.as_str())
    }
}

/// Whether the address `d` has the path of a chapter at `a` or of a page at `b`,
/// up to the number of the page, on the chapter's site.
pub open spec fn is_page_beside(a: UrlV, b: UrlV, d: UrlV) -> bool {
    let whole = path_base(d.path, false);
    let page = path_base(d.path, true);
    let first = path_base(a.path, false);
    let before = path_base(b.path, false);
    is_same_origin(a, d) && (whole == first || whole == before || page == first || page == before)
}

pub fn page_beside(a: &UrlParts, b: &UrlParts, d: &UrlParts) -> (r: bool)
    ensures
        r == is_page_beside(a.model(), b.model(), d.model()),
{
    if !same_origin(a, d) {
        return false;
    }
    let first = content_path_base(a.path.as_str(), false);
    let before = content_path_base(b.path.as_str(), false);
    let whole = content_path_base(d.path.as_str(), false);
    let page = content_path_base(d.path.as_str(), true);
    same(whole.as_str(), first.as_str()) || same(whole.as_str(), before.as_str()) || same(
        page.as_str(),
        first.as_str(),
    ) || same(page.as_str(), before.as_str())
}

/// Whether a page is a further page of a chapter, and not the next chapter: it
/// stands on the same site, and its path is that of the chapter or of the page
/// before it, up to the number of the page.
pub open spec fn is_further_page(chapter: Seq<char>, current: Seq<char>, next: Seq<char>) -> bool {
    let c = without_fragment(chapter);
    let p = without_fragment(current);
    let n = without_fragment(next);
    n != c && n != p && match (url_read(c), url_read(p), url_read(n)) {
        (Ok(a), Ok(b), Ok(d)) => is_page_beside(a, b, d),
        _ => false,
    }
}

pub fn should_follow_content_page(chapter_url: &str, current_url: &str, next_url: &str) -> (r: bool)
    ensures
        r == is_further_page(chapter_url@, current_url@, next_url@),
{
    let c = strip_fragment(chapter_url);
    let p = strip_fragment(current_url);
    let n = strip_fragment(next_url);
    if same(n.as_str(), c.as_str()) || same(n.as_str(), p.as_str()) {
        return false;
    }
    match (parse_url(c.as_str()), parse_url(p.as_str()), parse_url(n.as_str())) {
        (Ok(a), Ok(b), Ok(d)) => page_beside(&a, &b, &d),
        _ => false,
    }
}

/// A text with another before, between and after the first `n` of its characters.
pub open spec fn interspersed(s: Seq<char>, with: Seq<char>, n: int) -> Seq<char>
    decreases n,
{
    if n <= 0 {
        with
    } else {
        interspersed(s, with, n - 1).push(s[n - 1]) + with
    }
}

/// A text with every occurrence of another replaced; the empty text occurs
/// before, between and after all characters.
pub open spec fn all_replaced(s: Seq<char>, from: Seq<char>, to: Seq<char>) -> Seq<char> {
    if from.len() == 0 {
        interspersed(s, to, s.len() as int)
    } else {
        replace_of(s, from, to)
    }
}

pub fn replace_all_text(s: &str, from: &str, to: &str) -> (r: String)
    ensures
        r@ == all_replaced(s@, from@, to@),
{
    if !is_empty_text(from) {
        return replace(s, from, to);
    }
    let v = chars_of(s);
    let mut r = copy(to);
    let mut k: usize = 0;
    while k < v.len()
        invariant
            v@ == s@,
            k <= v.len(),
            r@ == interspersed(s@, to@, k as int),
        decreases v.len() - k,
    {
        r.push(v[k]);
        r.append(to);
        k = k + 1;
    }
    r
}

/// The expression of a rule that is a pattern.
pub open spec fn rule_expression(r: ReplaceV) -> Seq<char> {
    if !has_prefix(r.pattern, "##"@) {
        "##"@ + r.pattern + "##"@ + r.replacement
    } else if contains_text(r.pattern, "##"@ + r.replacement) {
        r.pattern
    } else {
        r.pattern + "##"@ + r.replacement
    }
}

/// A text after one rule.
pub open spec fn rule_applied(text: Seq<char>, r: ReplaceV) -> Seq<char> {
    if !r.is_enabled {
        text
    } else if r.is_regex {
        regex_applied(text, rule_expression(r))
    } else {
        all_replaced(text, r.pattern, r.replacement)
    }
}

/// A text after the first `n` rules.
pub open spec fn rules_applied(text: Seq<char>, rules: Seq<ReplaceV>, n: int) -> Seq<char>
    decreases n,
{
    if n <= 0 {
        text
    } else {
        rule_applied(rules_applied(text, rules, n - 1), rules[n - 1])
    }
}

/// Cleans the text of a chapter by rules, in their order.
pub fn apply_replace_rules(content: &str, rules: &Vec<ReplaceRule>) -> (r: String)
    ensures
        r@ == rules_applied(content@, replace_models(rules@), rules.len() as int),
{
    let ghost all = replace_models(rules@);
    let mut text = copy(content);
    let mut k: usize = 0;
    while k < rules.len()
        invariant
            k <= rules.len(),
            all == replace_models(rules@),
            text@ == rules_applied(content@, all, k as int),
        decreases rules.len() - k,
    {
        let rule = &rules[k];
        assert(all[k as int] == rule.model());
        if rule.is_enabled {
            if rule.is_regex {
                let p = rule.pattern.as_str();
                let replacement = concat("##", rule.replacement.as_str());
                let expression = if !starts_with(p, "##") {
                    let e = concat3("##", p, replacement.as_str());
                    assert(e@ =~= "##"@ + rule.pattern@ + "##"@ + rule.replacement@);
                    e
                } else if contains(p, replacement.as_str()) {
                    copy(p)
                } else {
                    let e = concat(p, replacement.as_str());
                    assert(e@ =~= rule.pattern@ + "##"@ + rule.replacement@);
                    e
                };
                text = apply_legado_regex(text.as_str(), expression.as_str());
            } else {
                text = replace_all_text(text.as_str(), rule.pattern.as_str(), rule.replacement.as_str());
            }
        }
        k = k + 1;
    }
    text
}

/// A further page of a chapter is another page of the same site.
pub proof fn law_further_page_stays(chapter: Seq<char>, current: Seq<char>, next: Seq<char>)
    requires
        is_further_page(chapter, current, next),
    ensures
        without_fragment(next) != without_fragment(chapter),
        without_fragment(next) != without_fragment(current),
        url_read(without_fragment(chapter)) is Ok,
        url_read(without_fragment(next)) is Ok,
        is_same_origin(url_read(without_fragment(chapter))->Ok_0, url_read(without_fragment(next))->Ok_0),
{
}

} // verus!
