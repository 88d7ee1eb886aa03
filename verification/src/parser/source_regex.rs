//! Regular expressions of book sources, with the meaning that Java's
//! `Pattern` has on Android.

use crate::ext::regexes::{
    group_rows, java_compiles, java_find, java_found, java_full_match, java_matches, java_replace_all,
    java_replace_first, java_replaced, java_replaced_first, java_valid, opt_rows, opt_texts,
};
use crate::parser::pattern_guard::{may_overflow, pattern_may_overflow};
use crate::util::chars::{opt_text, texts};
use vstd::prelude::*;

verus! {

/// Whether a pattern can be compiled.
pub fn is_valid(pattern: &str) -> (r: bool)
    ensures
        r == java_valid(pattern@),
{
    java_compiles(pattern)
}

/// Whether `pattern` matches the whole of `text`; `None` where it cannot be used.
pub open spec fn full_match(pattern: Seq<char>, text: Seq<char>) -> Option<bool> {
    if may_overflow(pattern) {
        None
    } else {
        java_matches(pattern, text)
    }
}

/// The matches of `pattern` in `text`; `None` where it cannot be used.
pub open spec fn matches_in(pattern: Seq<char>, text: Seq<char>) -> Option<Seq<Seq<Option<Seq<char>>>>> {
    if may_overflow(pattern) {
        None
    } else {
        java_found(pattern, text)
    }
}

/// `text` with every match of `pattern` replaced; `None` where it cannot be used.
pub open spec fn matches_replaced(pattern: Seq<char>, text: Seq<char>, replacement: Seq<char>) -> Option<Seq<char>> {
    if may_overflow(pattern) {
        None
    } else {
        java_replaced(pattern, text, replacement)
    }
}

/// The matches of a pattern; none where it cannot be used.
fn find_rows(pattern: &str, input: &str) -> (r: Option<Vec<Vec<Option<String>>>>)
    ensures
        opt_rows(r) == matches_in(pattern@, input@),
{
    if pattern_may_overflow(pattern) {
        return None;
    }
    java_find(pattern, input)
}

/// Whether a pattern matches the whole input.
pub fn is_full_match(pattern: &str, input: &str) -> (r: bool)
    ensures
        r == (full_match(pattern@, input@) == Some(true)),
{
    if pattern_may_overflow(pattern) {
        return false;
    }
    match java_full_match(pattern, input) {
        Some(b) => b,
        None => false,
    }
}

pub open spec fn whole_match(row: Seq<Option<Seq<char>>>) -> Seq<char> {
    if row.len() > 0 && row[0] is Some {
        row[0]->0
    } else {
        seq![]
    }
}

/// The text of a match.
pub fn text_of_match(row: &Vec<Option<String>>) -> (r: String)
    ensures
        r@ == whole_match(opt_texts(row@)),
{
    if row.len() > 0 {
        assert(opt_texts(row@)[0] == opt_text(row@[0]));
        if let Some(t) = &row[0] {
            return t.clone();
        }
    }
    let r = String::new();
    assert(r@ =~= seq![]);
    r
}

/// The text of each match.
pub open spec fn match_texts(rows: Seq<Seq<Option<Seq<char>>>>) -> Seq<Seq<char>> {
    Seq::new(rows.len(), |i: int| whole_match(rows[i]))
}

/// The text of every match; `None` where the pattern cannot be used.
pub fn find_all(pattern: &str, input: &str) -> (r: Option<Vec<String>>)
    ensures
        match (r, matches_in(pattern@, input@)) {
            (Some(v), Some(rows)) => texts(v@) == match_texts(rows),
            (None, None) => true,
            _ => false,
        },
{
    match find_rows(pattern, input) {
        Some(rows) => Some(texts_of_matches(&rows)),
        None => None,
    }
}

/// The text of each of the matches that were found.
pub fn texts_of_matches(rows: &Vec<Vec<Option<String>>>) -> (r: Vec<String>)
    ensures
        texts(r@) == match_texts(group_rows(rows@)),
{
    let ghost all = group_rows(rows@);
    let mut r: Vec<String> = Vec::new();
    let mut k: usize = 0;
    while k < rows.len()
        invariant
            k <= rows.len(),
            all.len() == rows.len(),
            all == group_rows(rows@),
            texts(r@) =~= match_texts(all).take(k as int),
        decreases rows.len() - k,
    {
        assert(all[k as int] == opt_texts(rows@[k as int]@));
        let ghost before = texts(r@);
        let t = text_of_match(&rows[k]);
        let ghost x = t@;
        r.push(t);
        assert(texts(r@) =~= before.push(x));
        k = k + 1;
    }
    assert(match_texts(all).take(all.len() as int) =~= match_texts(all));
    r
}

/// The first match and its groups.
pub fn captures_first(pattern: &str, input: &str) -> (r: Option<Vec<Option<String>>>)
    ensures
        match (r, matches_in(pattern@, input@)) {
            (Some(v), Some(rows)) => rows.len() > 0 && opt_texts(v@) == rows[0],
            (None, Some(rows)) => rows.len() == 0,
            (None, None) => true,
            _ => false,
        },
{
    match find_rows(pattern, input) {
        Some(rows) => {
            let mut rows = rows;
            if rows.len() == 0 {
                None
            } else {
                assert(group_rows(rows@)[0] == opt_texts(rows@[0]@));
                Some(rows.remove(0))
            }
        },
        None => None,
    }
}

/// Every match and its groups; `None` where the pattern cannot be used.
pub fn captures_all(pattern: &str, input: &str) -> (r: Option<Vec<Vec<Option<String>>>>)
    ensures
        opt_rows(r) == matches_in(pattern@, input@),
{
    find_rows(pattern, input)
}

/// Replaces every match; an error where the pattern cannot be used.
pub fn replace_all(input: &str, pattern: &str, replacement: &str) -> (r: Result<String, ()>)
    ensures
        match (r, matches_replaced(pattern@, input@, replacement@)) {
            (Ok(s), Some(t)) => s@ == t,
            (Err(_), None) => true,
            _ => false,
        },
{
    if pattern_may_overflow(pattern) {
        return Err(());
    }
    match java_replace_all(pattern, input, replacement) {
        Some(s) => Ok(s),
        None => Err(()),
    }
}

/// What replacing the first match within the text of that match gives: `None`
/// for a bad pattern, `Some(None)` where nothing matches.
pub open spec fn first_match_replaced(input: Seq<char>, pattern: Seq<char>, replacement: Seq<char>) -> Option<
    Option<Seq<char>>,
> {
    match matches_in(pattern, input) {
        Some(rows) => if rows.len() == 0 {
            Some(None)
        } else {
            match java_replaced_first(pattern, whole_match(rows[0]), replacement) {
                Some(t) => Some(Some(t)),
                None => None,
            }
        },
        None => None,
    }
}

/// Finds the first match in the input, and replaces within the text of that
/// match alone; the rest of the input is dropped.
pub fn replace_first_match(input: &str, pattern: &str, replacement: &str) -> (r: Result<Option<String>, ()>)
    ensures
        match r {
            Ok(Some(s)) => first_match_replaced(input@, pattern@, replacement@) == Some(Some(s@)),
            Ok(None) => first_match_replaced(input@, pattern@, replacement@) == Some(None::<Seq<char>>),
            Err(_) => first_match_replaced(input@, pattern@, replacement@) is None,
        },
{
    let rows = match find_rows(pattern, input) {
        Some(rows) => rows,
        None => {
            return Err(());
        },
    };
    if rows.len() == 0 {
        return Ok(None);
    }
    assert(group_rows(rows@)[0] == opt_texts(rows@[0]@));
    let first = text_of_match(&rows[0]);
    match java_replace_first(pattern, first.as_str(), replacement) {
        Some(s) => Ok(Some(s)),
        None => Err(()),
    }
}

} // verus!
