//! Normalization of texts and source addresses.

use crate::ext::regexes::{is_left_alone, regex_replaced, replace_matches};
use crate::util::chars::{
    chars_of, contains, contains_text, copy, has_solid_ends, is_control, is_control_char, is_space, is_word, join,
    join_of, lemma_joined_words, lemma_replaced, lemma_replaced_ends, lemma_solid_ends, lemma_trim_ends, lemma_trimmed,
    lemma_words, replace, replace_of, split_whitespace, string_of, trim, trim_of, words_of,
};
use vstd::prelude::*;
use vstd::string::*;

verus! {

/// The words of a text with single blanks between them.
pub fn strip_whitespace(s: &str) -> (r: String)
    ensures
        r@ == join_of(words_of(s@), " "@),
{
    join(&split_whitespace(s), " ")
}

/// Replaces every match of a pattern; a pattern that cannot be compiled leaves
/// the input as it is.
pub fn apply_regex_replace(input: &str, pattern: &str, replace: &str) -> (r: String)
    ensures
        r@ == match regex_replaced(pattern@, input@, replace@) {
            Some(s) => s,
            None => input@,
        },
        is_left_alone(pattern@, input@, replace@) ==> r@ == input@,
{
    match replace_matches(pattern, input, replace) {
        Some(s) => s,
        None => copy(input),
    }
}

pub open spec fn kept_in_url(c: char) -> bool {
    !is_control(c) || c == '\n' || c == '\r' || c == '\t'
}

/// An address without the characters that addresses do not keep, trimmed.
pub open spec fn normalized_url(s: Seq<char>) -> Seq<char> {
    trim_of(s.filter(|c: char| kept_in_url(c)))
}

/// An address without control characters (but for line breaks and tabs), trimmed.
pub fn normalize_source_url(input: &str) -> (r: String)
    ensures
        r@ == normalized_url(input@),
{
    let v = chars_of(input);
    let mut out: Vec<char> = Vec::new();
    let ghost keep = |c: char| kept_in_url(c);
    let mut i: usize = 0;
    assert(v@.take(0) =~= seq![]);
    proof {
        reveal(Seq::filter);
    }
    while i < v.len()
        invariant
            v@ == input@,
            i <= v.len(),
            keep == (|c: char| kept_in_url(c)),
            out@ == v@.take(i as int).filter(keep),
        decreases v.len() - i,
    {
        let c = v[i];
        proof {
            reveal(Seq::filter);
            assert(v@.take(i + 1).drop_last() =~= v@.take(i as int));
        }
        if !is_control_char(c) || c == '\n' || c == '\r' || c == '\t' {
            out.push(c);
        }
        i = i + 1;
    }
    assert(v@.take(v.len() as int) =~= v@);
    trim(string_of(&out).as_str())
}

pub open spec fn has_encoded_mark(s: Seq<char>) -> bool {
    ||| contains_text(s, "%3F"@)
    ||| contains_text(s, "%3f"@)
    ||| contains_text(s, "%26"@)
    ||| contains_text(s, "%3D"@)
    ||| contains_text(s, "%3d"@)
}

pub open spec fn decoded_marks(s: Seq<char>) -> Seq<char> {
    let a = replace_of(replace_of(s, "%3F"@, "?"@), "%3f"@, "?"@);
    let b = replace_of(a, "%26"@, "&"@);
    let c = replace_of(replace_of(b, "%3D"@, "="@), "%3d"@, "="@);
    replace_of(c, "%23"@, "#"@)
}

/// Turns the encoded `?`, `&`, `=` and `#` of an address back, if one of the
/// first three is encoded.
pub fn repair_encoded_url(input: &str) -> (r: String)
    ensures
        r@ == repaired(input@),
{
    let n = normalize_source_url(input);
    let s = n.as_str();
    if !(contains(s, "%3F") || contains(s, "%3f") || contains(s, "%26") || contains(s, "%3D") || contains(s, "%3d")) {
        return n;
    }
    proof {
        reveal_strlit("%3F");
        reveal_strlit("%3f");
        reveal_strlit("%26");
        reveal_strlit("%3D");
        reveal_strlit("%3d");
        reveal_strlit("%23");
    }
    let a = replace(s, "%3F", "?");
    let a = replace(a.as_str(), "%3f", "?");
    let a = replace(a.as_str(), "%26", "&");
    let a = replace(a.as_str(), "%3D", "=");
    let a = replace(a.as_str(), "%3d", "=");
    replace(a.as_str(), "%23", "#")
}

/// Stripping white space keeps the words of a text, with one blank between two
/// of them, and stripping it again changes nothing.
pub proof fn law_words_are_kept(s: Seq<char>)
    ensures
        words_of(join_of(words_of(s), " "@)) == words_of(s),
        forall|k: int| 0 <= k < words_of(s).len() ==> is_word(#[trigger] words_of(s)[k]),
        join_of(words_of(join_of(words_of(s), " "@)), " "@) == join_of(words_of(s), " "@),
{
    reveal_strlit(" ");
    assert(" "@ =~= seq![' ']);
    lemma_words(s, 0);
    lemma_joined_words(words_of(s));
}

/// What repairing an address gives.
pub open spec fn repaired(s: Seq<char>) -> Seq<char> {
    let n = normalized_url(s);
    if has_encoded_mark(n) {
        decoded_marks(n)
    } else {
        n
    }
}

proof fn lemma_step_clean(s: Seq<char>, p: Seq<char>, c: char)
    requires
        p.len() > 0,
        has_solid_ends(s),
        forall|k: int| 0 <= k < s.len() ==> kept_in_url(#[trigger] s[k]),
        !is_space(c),
        kept_in_url(c),
    ensures
        has_solid_ends(replace_of(s, p, seq![c])),
        forall|k: int| 0 <= k < replace_of(s, p, seq![c]).len() ==> kept_in_url(#[trigger] replace_of(s, p, seq![c])[k]),
{
    lemma_replaced_ends(s, p, c);
    let r = replace_of(s, p, seq![c]);
    assert forall|k: int| 0 <= k < r.len() implies kept_in_url(#[trigger] r[k]) by {
        if r[k] != c {
            let j = choose|j: int| 0 <= j < s.len() && s[j] == r[k];
            assert(kept_in_url(s[j]));
        }
    }
}

proof fn lemma_mark_text(t: &str, a: char, b: char, c: char)
    requires
        t@ =~= seq![a, b, c],
        a != '?' && a != '&' && a != '=' && a != '#',
        b != '?' && b != '&' && b != '=' && b != '#',
        c != '?' && c != '&' && c != '=' && c != '#',
    ensures
        !t@.contains('?') && !t@.contains('&') && !t@.contains('=') && !t@.contains('#'),
{
    assert forall|x: char| t@.contains(x) implies x == a || x == b || x == c by {
        let k = choose|k: int| 0 <= k < t@.len() && t@[k] == x;
    }
}

/// A repaired address has no encoded mark left, one without any is only
/// normalized, and repairing an address again changes nothing.
pub proof fn law_repaired_once(s: Seq<char>)
    ensures
        !has_encoded_mark(repaired(s)),
        !has_encoded_mark(normalized_url(s)) ==> repaired(s) == normalized_url(s),
        repaired(repaired(s)) == repaired(s),
{
    reveal_strlit("%3F");
    reveal_strlit("%3f");
    reveal_strlit("%26");
    reveal_strlit("%3D");
    reveal_strlit("%3d");
    reveal_strlit("%23");
    reveal_strlit("?");
    reveal_strlit("&");
    reveal_strlit("=");
    reveal_strlit("#");
    assert("?"@ =~= seq!['?'] && "&"@ =~= seq!['&'] && "="@ =~= seq!['='] && "#"@ =~= seq!['#']);
    lemma_mark_text("%3F", '%', '3', 'F');
    lemma_mark_text("%3f", '%', '3', 'f');
    lemma_mark_text("%26", '%', '2', '6');
    lemma_mark_text("%3D", '%', '3', 'D');
    lemma_mark_text("%3d", '%', '3', 'd');
    let n = normalized_url(s);
    lemma_kept(s);
    lemma_trim_ends(s.filter(|c: char| kept_in_url(c)));
    let r = repaired(s);
    if has_encoded_mark(n) {
        let a = replace_of(n, "%3F"@, "?"@);
        let b = replace_of(a, "%3f"@, "?"@);
        let c = replace_of(b, "%26"@, "&"@);
        let d = replace_of(c, "%3D"@, "="@);
        let e = replace_of(d, "%3d"@, "="@);
        lemma_replaced(n, "%3F"@, '?', "%3F"@);
        lemma_replaced(a, "%3f"@, '?', "%3F"@);
        lemma_replaced(a, "%3f"@, '?', "%3f"@);
        lemma_replaced(b, "%26"@, '&', "%3F"@);
        lemma_replaced(b, "%26"@, '&', "%3f"@);
        lemma_replaced(b, "%26"@, '&', "%26"@);
        lemma_replaced(c, "%3D"@, '=', "%3F"@);
        lemma_replaced(c, "%3D"@, '=', "%3f"@);
        lemma_replaced(c, "%3D"@, '=', "%26"@);
        lemma_replaced(c, "%3D"@, '=', "%3D"@);
        lemma_replaced(d, "%3d"@, '=', "%3F"@);
        lemma_replaced(d, "%3d"@, '=', "%3f"@);
        lemma_replaced(d, "%3d"@, '=', "%26"@);
        lemma_replaced(d, "%3d"@, '=', "%3D"@);
        lemma_replaced(d, "%3d"@, '=', "%3d"@);
        lemma_replaced(e, "%23"@, '#', "%3F"@);
        lemma_replaced(e, "%23"@, '#', "%3f"@);
        lemma_replaced(e, "%23"@, '#', "%26"@);
        lemma_replaced(e, "%23"@, '#', "%3D"@);
        lemma_replaced(e, "%23"@, '#', "%3d"@);
        lemma_step_clean(n, "%3F"@, '?');
        lemma_step_clean(a, "%3f"@, '?');
        lemma_step_clean(b, "%26"@, '&');
        lemma_step_clean(c, "%3D"@, '=');
        lemma_step_clean(d, "%3d"@, '=');
        lemma_step_clean(e, "%23"@, '#');
    }
    lemma_all_kept(r);
    if r.len() > 0 {
        lemma_solid_ends(r);
    }
    assert(normalized_url(r) == r);
}

/// The characters of a normalized address are those that addresses keep.
pub proof fn lemma_kept(s: Seq<char>)
    ensures
        forall|i: int|
            0 <= i < normalized_url(s).len() ==> kept_in_url(
                #[trigger] normalized_url(s)[i],
            ),
{
    let keep = |c: char| kept_in_url(c);
    let f = s.filter(keep);
    let t = trim_of(f);
    s.filter_lemma(keep);
    lemma_trimmed(f);
    assert forall|i: int| 0 <= i < t.len() implies kept_in_url(#[trigger] t[i]) by {
        assert(t.contains(t[i]));
        assert(f.contains(t[i]));
        let j = choose|j: int| 0 <= j < f.len() && f[j] == t[i];
        assert(keep(f[j]));
    }
}

/// A text of such characters is kept as it is.
pub proof fn lemma_all_kept(s: Seq<char>)
    requires
        forall|i: int| 0 <= i < s.len() ==> kept_in_url(#[trigger] s[i]),
    ensures
        s.filter(|c: char| kept_in_url(c)) == s,
    decreases s.len(),
{
    reveal(Seq::filter);
    if s.len() > 0 {
        lemma_all_kept(s.drop_last());
        assert(kept_in_url(s[s.len() - 1]));
        assert(s.drop_last().push(s.last()) =~= s);
    }
}

} // verus!
