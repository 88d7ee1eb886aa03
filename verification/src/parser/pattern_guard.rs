//! Patterns whose length `java_regex` cannot count.
//!
//! To look behind, the crate computes the least length of what a pattern
//! matches, and multiplies the counts of nested repetitions without looking for
//! an overflow. A pattern that looks behind is left alone where its length times
//! all of its counts is more than 32 bits hold.

use crate::util::chars::{chars_of, contains, contains_text, is_digit, is_digit_char};
use vstd::prelude::*;

verus! {

pub const MAX_LEAST: u64 = 4294967295;

/// The number that the digits from position `i` on write, after a number that
/// was read so far; it is read no further once it is too large.
pub open spec fn count_from(s: Seq<char>, i: int, n: int) -> int
    decreases s.len() - i,
{
    if 0 <= i < s.len() && is_digit(s[i]) && n <= MAX_LEAST {
        count_from(s, i + 1, n * 10 + (s[i] as int - '0' as int))
    } else {
        n
    }
}

/// Whether the counts of a pattern, from position `i` on, are more than can be
/// multiplied with what was multiplied so far.
pub open spec fn too_many_from(s: Seq<char>, i: int, least: int) -> bool
    decreases s.len() - i,
{
    if i < 0 || i >= s.len() {
        least > MAX_LEAST
    } else if s[i] != '{' || count_from(s, i + 1, 0) <= 1 {
        too_many_from(s, i + 1, least)
    } else if least > MAX_LEAST || count_from(s, i + 1, 0) > MAX_LEAST {
        true
    } else {
        too_many_from(s, i + 1, least * count_from(s, i + 1, 0))
    }
}

/// Whether a pattern may look behind.
pub open spec fn looks_behind(pattern: Seq<char>) -> bool {
    contains_text(pattern, "(?<="@) || contains_text(pattern, "(?<!"@)
}

/// Whether `java_regex` may fail to count the least length of a pattern.
pub open spec fn may_overflow(pattern: Seq<char>) -> bool {
    looks_behind(pattern) && too_many_from(pattern, 0, pattern.len() as int)
}

/// The number that the digits from a position on write.
pub fn read_count(v: &Vec<char>, from: usize) -> (r: u64)
    requires
        from <= v.len(),
    ensures
        r == count_from(v@, from as int, 0),
        r <= MAX_LEAST * 10 + 9,
{
    let mut n: u64 = 0;
    let mut i: usize = from;
    while i < v.len() && is_digit_char(v[i]) && n <= MAX_LEAST
        invariant
            from <= i <= v.len(),
            n <= MAX_LEAST * 10 + 9,
            count_from(v@, from as int, 0) == count_from(v@, i as int, n as int),
        decreases v.len() - i,
    {
        let d: u64 = v[i] as u64 - '0' as u64;
        n = n * 10 + d;
        i = i + 1;
    }
    n
}

/// Tells whether `java_regex` may fail to count the least length of a pattern.
pub fn pattern_may_overflow(pattern: &str) -> (r: bool)
    ensures
        r == may_overflow(pattern@),
{
    if !contains(pattern, "(?<=") && !contains(pattern, "(?<!") {
        return false;
    }
    let v = chars_of(pattern);
    if v.len() as u64 > MAX_LEAST {
        proof {
            lemma_too_many(v@, 0, v@.len() as int);
        }
        return true;
    }
    let mut least: u64 = v.len() as u64;
    let mut i: usize = 0;
    while i < v.len()
        invariant
            v@ == pattern@,
            looks_behind(pattern@),
            i <= v.len(),
            least <= MAX_LEAST * MAX_LEAST,
            too_many_from(v@, 0, v@.len() as int) == too_many_from(v@, i as int, least as int),
        decreases v.len() - i,
    {
        if v[i] == '{' {
            let n: u64 = read_count(&v, i + 1);
            if n > 1 {
                if least > MAX_LEAST || n > MAX_LEAST {
                    return true;
                }
                proof {
                    lemma_product(least as int, n as int);
                }
                least = least * n;
            }
        }
        i = i + 1;
    }
    least > MAX_LEAST
}

proof fn lemma_product(a: int, b: int)
    requires
        0 <= a <= MAX_LEAST,
        0 <= b <= MAX_LEAST,
    ensures
        0 <= a * b <= MAX_LEAST * MAX_LEAST,
{
    assert(0 <= a * b <= 4294967295 * 4294967295) by (nonlinear_arith)
        requires
            0 <= a <= 4294967295,
            0 <= b <= 4294967295,
    ;
}

proof fn lemma_too_many(s: Seq<char>, i: int, least: int)
    requires
        0 <= i <= s.len(),
        least > MAX_LEAST,
    ensures
        too_many_from(s, i, least),
    decreases s.len() - i,
{
    if i < s.len() {
        lemma_too_many(s, i + 1, least);
    }
}

} // verus!
