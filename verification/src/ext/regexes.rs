//! Regular expressions: the `regex` crate, and `java_regex` for the patterns
//! that book sources are written with.

use crate::parser::pattern_guard::may_overflow;
use crate::util::chars::{is_space, opt_text, texts};
use vstd::prelude::*;

verus! {

/// One match: the text between it and the match before it, and its groups. The
/// first group is the whole match.
pub struct Found {
    pub before: String,
    pub groups: Vec<Option<String>>,
}

/// All matches of a pattern in a text, and the text after the last.
pub struct Matches {
    pub found: Vec<Found>,
    pub tail: String,
}

pub struct FoundV {
    pub before: Seq<char>,
    pub groups: Seq<Option<Seq<char>>>,
}

pub struct MatchesV {
    pub found: Seq<FoundV>,
    pub tail: Seq<char>,
}

pub open spec fn opt_texts(v: Seq<Option<String>>) -> Seq<Option<Seq<char>>> {
    Seq::new(v.len(), |i: int| opt_text(v[i]))
}

impl Found {
    pub open spec fn model(self) -> FoundV {
        FoundV { before: self.before@, groups: opt_texts(self.groups@) }
    }
}

pub open spec fn found_models(v: Seq<Found>) -> Seq<FoundV> {
    Seq::new(v.len(), |i: int| v[i].model())
}

impl Matches {
    pub open spec fn model(self) -> MatchesV {
        MatchesV { found: found_models(self.found@), tail: self.tail@ }
    }
}

pub open spec fn opt_matches(o: Option<Matches>) -> Option<MatchesV> {
    match o {
        Some(m) => Some(m.model()),
        None => None,
    }
}

/// Every match has its whole text as first group.
pub open spec fn whole_groups(m: MatchesV) -> bool {
    forall|i: int| 0 <= i < m.found.len() ==> (#[trigger] m.found[i]).groups.len() > 0 && m.found[i].groups[0] is Some
}

/// The matches of `pattern` in `text` by the `regex` crate; `None` where the
/// pattern cannot be compiled.
pub uninterp spec fn regex_matches(pattern: Seq<char>, text: Seq<char>) -> Option<MatchesV>;

/// `text` with every match replaced by the `regex` crate, `$n` standing for groups.
pub uninterp spec fn regex_replaced(pattern: Seq<char>, text: Seq<char>, replacement: Seq<char>) -> Option<Seq<char>>;

/// The texts of the first `n` matches, each after the text before it.
pub open spec fn matched_text(m: MatchesV, n: int) -> Seq<char>
    decreases n,
{
    if n <= 0 {
        seq![]
    } else {
        matched_text(m, n - 1) + m.found[n - 1].before + m.found[n - 1].groups[0]->0
    }
}

/// Whether a text is a tag: an angle bracket, some characters, and the first
/// closing one.
pub open spec fn is_tag(t: Seq<char>) -> bool {
    &&& t.len() >= 3
    &&& t[0] == '<'
    &&& t.last() == '>'
    &&& forall|k: int| 0 <= k < t.len() - 1 ==> #[trigger] t[k] != '>'
}

/// Whether a tag stands at a position of a text, up to a later one.
pub open spec fn tag_at(s: Seq<char>, k: int, n: int) -> bool {
    0 <= k < n < s.len() && is_tag(s.subrange(k, n + 1))
}

/// The pattern of scripts.
pub open spec fn script_pattern() -> Seq<char> {
    "(?is)<script[^>]*>.*?</script>"@
}

/// The pattern of style sheets.
pub open spec fn style_pattern() -> Seq<char> {
    "(?is)<style[^>]*>.*?</style>"@
}

/// The pattern of comments.
pub open spec fn comment_pattern() -> Seq<char> {
    "(?s)<!--.*?-->"@
}

/// The pattern of basic tags with or without attributes.
pub open spec fn basic_pattern() -> Seq<char> {
    "(?i)<(/?)(p|br|b|strong|i|em|u|h[1-6]|li|ul|ol)(?:\\s+[^>]*)?/?>"@
}

/// The letter `s` in either case, and the long one, which is a case of it.
pub open spec fn is_letter_s(c: char) -> bool {
    c == 's' || c == 'S' || c == '\u{17f}'
}

/// Whether a tag may be the start of a script.
pub open spec fn names_script(t: Seq<char>) -> bool {
    t.len() > 3 && is_letter_s(t[1]) && (t[2] == 'c' || t[2] == 'C')
}

/// Whether a tag may be the start of a style sheet.
pub open spec fn names_style(t: Seq<char>) -> bool {
    t.len() > 3 && is_letter_s(t[1]) && (t[2] == 't' || t[2] == 'T') && (t[3] == 'y' || t[3] == 'Y')
}

/// Whether a tag may be the start of a comment.
pub open spec fn opens_comment(t: Seq<char>) -> bool {
    t[1] == '!'
}

/// Whether a tag has something after its name: white space or a slash.
pub open spec fn has_rest(t: Seq<char>) -> bool {
    exists|k: int| 2 <= k < t.len() && (is_space(#[trigger] t[k]) || t[k] == '/')
}

/// Whether replacing the matches of a pattern may change a tag.
pub open spec fn touches(pattern: Seq<char>, t: Seq<char>) -> bool {
    ||| pattern == script_pattern() && names_script(t)
    ||| pattern == style_pattern() && names_style(t)
    ||| pattern == comment_pattern() && opens_comment(t)
    ||| pattern == basic_pattern() && has_rest(t)
}

/// Whether replacing the matches of one of these patterns changes no tag of a text.
pub open spec fn is_left_alone(pattern: Seq<char>, text: Seq<char>, replacement: Seq<char>) -> bool {
    &&& pattern == script_pattern() || pattern == style_pattern() || pattern == comment_pattern() || (pattern
        == basic_pattern() && replacement == "<$1$2>"@)
    &&& forall|k: int, n: int| #[trigger] tag_at(text, k, n) ==> !touches(pattern, text.subrange(k, n + 1))
}

/// Whether every opening bracket of a text is closed at once.
pub open spec fn closes_at_once(t: Seq<char>) -> bool {
    forall|k: int| 0 <= k < t.len() && #[trigger] t[k] == '<' ==> k + 1 < t.len() && t[k + 1] == '>'
}

/// Whether no tag starts in a text that stands at the end.
pub open spec fn starts_no_tag(t: Seq<char>) -> bool {
    forall|k: int| #![trigger t[k]]
        0 <= k < t.len() && t[k] == '<' ==> (k + 1 < t.len() && t[k + 1] == '>') || forall|j: int|
            k < j < t.len() ==> #[trigger] t[j] != '>'
}

/// Whether the matches are all tags of a text.
pub open spec fn are_all_tags(m: MatchesV) -> bool {
    &&& forall|i: int|
        0 <= i < m.found.len() ==> closes_at_once((#[trigger] m.found[i]).before) && is_tag(m.found[i].groups[0]->0)
    &&& starts_no_tag(m.tail)
}

/// `regex::Regex::captures_iter`: all matches, left to right and not overlapping.
/// The matches and what stands between them add up to the text. The pattern
/// `<[^>]+>` finds all tags: the leftmost match is taken, so none starts between
/// two of them.
#[verifier::external_body]
pub(crate) fn find_matches(pattern: &str, text: &str) -> (r: Option<Matches>)
    ensures
        opt_matches(r) == regex_matches(pattern@, text@),
        r is Some ==> whole_groups(r->0.model()),
        r is Some ==> matched_text(r->0.model(), r->0.found.len() as int) + r->0.tail@ == text@,
        pattern@ == "<[^>]+>"@ ==> r is Some && are_all_tags(r->0.model()),
{
    let re = regex::Regex::new(pattern).ok()?;
    let mut last: usize = 0;
    let mut found = Vec::new();
    for c in re.captures_iter(text) {
        let whole = c.get(0).unwrap();
        found.push(Found {
            before: text[last..whole.start()].to_string(),
            groups: c.iter().map(|g| g.map(|m| m.as_str().to_string())).collect(),
        });
        last = whole.end();
    }
    Some(Matches { found, tail: text[last..].to_string() })
}

/// `regex::Regex::replace_all`: every match replaced, with `$name` and `$n` in
/// the replacement standing for groups. A match of the patterns of scripts, style
/// sheets and comments starts with a tag of that kind; one of the pattern of basic
/// tags is a tag, and is written back without what stands after its name. So a
/// text without such tags comes back as it is.
#[verifier::external_body]
pub(crate) fn replace_matches(pattern: &str, text: &str, replacement: &str) -> (r: Option<String>)
    ensures
        opt_text(r) == regex_replaced(pattern@, text@, replacement@),
        is_left_alone(pattern@, text@, replacement@) ==> opt_text(r) == Some(text@),
{
    let re = regex::Regex::new(pattern).ok()?;
    Some(re.replace_all(text, replacement).into_owned())
}

/// `text` with its first match replaced by the `regex` crate.
pub uninterp spec fn regex_replaced_first(pattern: Seq<char>, text: Seq<char>, replacement: Seq<char>) -> Option<Seq<char>>;

/// `regex::Regex::replace`: the first match replaced.
#[verifier::external_body]
pub(crate) fn replace_first_match(pattern: &str, text: &str, replacement: &str) -> (r: Option<String>)
    ensures
        opt_text(r) == regex_replaced_first(pattern@, text@, replacement@),
{
    let re = regex::Regex::new(pattern).ok()?;
    Some(re.replace(text, replacement).into_owned())
}

/// One match of a Java pattern: its text, then its groups.
pub open spec fn group_rows(v: Seq<Vec<Option<String>>>) -> Seq<Seq<Option<Seq<char>>>> {
    Seq::new(v.len(), |i: int| opt_texts(v[i]@))
}

pub open spec fn opt_rows(o: Option<Vec<Vec<Option<String>>>>) -> Option<Seq<Seq<Option<Seq<char>>>>> {
    match o {
        Some(v) => Some(group_rows(v@)),
        None => None,
    }
}

/// Whether `pattern` can be compiled with the flags `uU`.
pub uninterp spec fn java_valid(pattern: Seq<char>) -> bool;

/// `java_regex::Regex::with_flags`: whether a pattern can be compiled. The flags
/// make character classes and case those of Unicode.
#[verifier::external_body]
pub(crate) fn java_compiles(pattern: &str) -> (r: bool)
    ensures
        r == java_valid(pattern@),
{
    java_regex::Regex::with_flags(pattern, "uU").is_ok()
}

/// Whether `pattern`, with the flags `uU`, matches the whole of `text`; `None`
/// where it cannot be compiled.
pub uninterp spec fn java_matches(pattern: Seq<char>, text: Seq<char>) -> Option<bool>;

/// The matches of `pattern`, with the flags `uU`, in `text`: for each its text
/// and then its groups.
pub uninterp spec fn java_found(pattern: Seq<char>, text: Seq<char>) -> Option<Seq<Seq<Option<Seq<char>>>>>;

/// `text` with every match of `pattern` replaced, `$n` standing for groups.
pub uninterp spec fn java_replaced(pattern: Seq<char>, text: Seq<char>, replacement: Seq<char>) -> Option<Seq<char>>;

/// `text` with the first match of `pattern` replaced.
pub uninterp spec fn java_replaced_first(pattern: Seq<char>, text: Seq<char>, replacement: Seq<char>) -> Option<Seq<char>>;

/// `java_regex::Regex::matches`: whether a pattern matches a whole text. The
/// flags `u` and `U` give it Unicode classes and case handling, as Android has.
#[verifier::external_body]
pub(crate) fn java_full_match(pattern: &str, text: &str) -> (r: Option<bool>)
    requires
        !may_overflow(pattern@),
    ensures
        r.is_some() == java_valid(pattern@),
        r == java_matches(pattern@, text@),
{
    let re = java_regex::Regex::with_flags(pattern, "uU").ok()?;
    Some(re.matches(text))
}

/// `java_regex::Regex::find_iter`: the matches left to right, each with its
/// text first and its groups after that.
#[verifier::external_body]
pub(crate) fn java_find(pattern: &str, text: &str) -> (r: Option<Vec<Vec<Option<String>>>>)
    requires
        !may_overflow(pattern@),
    ensures
        r.is_some() == java_valid(pattern@),
        opt_rows(r) == java_found(pattern@, text@),
        r is Some ==> forall|i: int|
            0 <= i < r->0.len() ==> (#[trigger] r->0@[i]).len() > 0 && r->0@[i]@[0] is Some,
{
    let re = java_regex::Regex::with_flags(pattern, "uU").ok()?;
    Some(
        re.find_iter(text)
            .map(|m| std::iter::once(Some(m.matched_text)).chain(m.groups).collect())
            .collect(),
    )
}

/// `java_regex::Regex::replace_all`: every match replaced, in Java's
/// replacement syntax.
#[verifier::external_body]
pub(crate) fn java_replace_all(pattern: &str, text: &str, replacement: &str) -> (r: Option<String>)
    requires
        !may_overflow(pattern@),
    ensures
        r.is_some() == java_valid(pattern@),
        opt_text(r) == java_replaced(pattern@, text@, replacement@),
{
    let re = java_regex::Regex::with_flags(pattern, "uU").ok()?;
    Some(re.replace_all(text, replacement))
}

/// `java_regex::Regex::replace_first`: the first match replaced.
#[verifier::external_body]
pub(crate) fn java_replace_first(pattern: &str, text: &str, replacement: &str) -> (r: Option<String>)
    requires
        !may_overflow(pattern@),
    ensures
        r.is_some() == java_valid(pattern@),
        opt_text(r) == java_replaced_first(pattern@, text@, replacement@),
{
    let re = java_regex::Regex::with_flags(pattern, "uU").ok()?;
    Some(re.replace_first(text, replacement))
}

/// A text put together from matches: what stands before each, what each is
/// replaced by, and the tail.
pub open spec fn assembled(m: MatchesV, parts: Seq<Seq<char>>, n: int) -> Seq<char>
    decreases n,
{
    if n <= 0 {
        seq![]
    } else {
        assembled(m, parts, n - 1) + m.found[n - 1].before + parts[n - 1]
    }
}

/// Puts a text together from matches and what replaces them.
pub fn assemble(m: &Matches, parts: &Vec<String>) -> (r: String)
    requires
        m.found.len() == parts.len(),
    ensures
        r@ == assembled(m.model(), texts(parts@), parts.len() as int) + m.tail@,
{
    let mut r = String::new();
    let mut k: usize = 0;
    assert(r@ =~= assembled(m.model(), texts(parts@), 0));
    while k < parts.len()
        invariant
            k <= parts.len(),
            m.found.len() == parts.len(),
            r@ == assembled(m.model(), texts(parts@), k as int),
        decreases parts.len() - k,
    {
        assert(m.model().found[k as int] == m.found@[k as int].model());
        assert(texts(parts@)[k as int] == parts@[k as int]@);
        r.append(m.found[k].before.as_str());
        r.append(parts[k].as_str());
        k = k + 1;
    }
    r.append(m.tail.as_str());
    r
}

} // verus!
