//! Operations on strings, specified over the sequence of their characters.

use vstd::prelude::*;
use vstd::string::*;

verus! {

/// `String::push` appends one character.
pub assume_specification[ String::push ](s: &mut String, c: char)
    ensures
        final(s)@ == old(s)@.push(c),
;

/// The views of a list of strings.
pub open spec fn texts(v: Seq<String>) -> Seq<Seq<char>> {
    Seq::new(v.len(), |i: int| v[i]@)
}

/// The view of an optional string.
pub open spec fn opt_text(o: Option<String>) -> Option<Seq<char>> {
    match o {
        Some(s) => Some(s@),
        None => None,
    }
}

/// The view of an optional borrowed string.
pub open spec fn opt_str(o: Option<&str>) -> Option<Seq<char>> {
    match o {
        Some(s) => Some(s@),
        None => None,
    }
}

/// The characters with Unicode's `White_Space` property.
pub open spec fn is_space(c: char) -> bool {
    ||| '\u{9}' <= c <= '\u{d}'
    ||| c == ' '
    ||| c == '\u{85}'
    ||| c == '\u{a0}'
    ||| c == '\u{1680}'
    ||| '\u{2000}' <= c <= '\u{200a}'
    ||| c == '\u{2028}'
    ||| c == '\u{2029}'
    ||| c == '\u{202f}'
    ||| c == '\u{205f}'
    ||| c == '\u{3000}'
}

/// The characters of Unicode's general category `Cc`.
pub open spec fn is_control(c: char) -> bool {
    c <= '\u{1f}' || '\u{7f}' <= c <= '\u{9f}'
}

pub open spec fn is_digit(c: char) -> bool {
    '0' <= c <= '9'
}

pub open spec fn is_ascii_letter(c: char) -> bool {
    'a' <= c <= 'z' || 'A' <= c <= 'Z'
}

pub open spec fn trim_start_of(s: Seq<char>) -> Seq<char>
    decreases s.len(),
{
    if s.len() > 0 && is_space(s[0]) {
        trim_start_of(s.subrange(1, s.len() as int))
    } else {
        s
    }
}

pub open spec fn trim_end_of(s: Seq<char>) -> Seq<char>
    decreases s.len(),
{
    if s.len() > 0 && is_space(s.last()) {
        trim_end_of(s.drop_last())
    } else {
        s
    }
}

/// `s` without the white space at both ends.
pub open spec fn trim_of(s: Seq<char>) -> Seq<char> {
    trim_end_of(trim_start_of(s))
}

pub proof fn lemma_trim_len(s: Seq<char>)
    ensures
        trim_start_of(s).len() <= s.len(),
        trim_end_of(s).len() <= s.len(),
        trim_of(s).len() <= s.len(),
{
    lemma_trim_start_len(s);
    lemma_trim_end_len(s);
    lemma_trim_end_len(trim_start_of(s));
}

proof fn lemma_trim_start_len(s: Seq<char>)
    ensures
        trim_start_of(s).len() <= s.len(),
    decreases s.len(),
{
    if s.len() > 0 && is_space(s[0]) {
        lemma_trim_start_len(s.subrange(1, s.len() as int));
    }
}

proof fn lemma_trim_end_len(s: Seq<char>)
    ensures
        trim_end_of(s).len() <= s.len(),
    decreases s.len(),
{
    if s.len() > 0 && is_space(s.last()) {
        lemma_trim_end_len(s.drop_last());
    }
}

/// Whether `p` stands in `s` at position `i`.
pub open spec fn occurs_at(s: Seq<char>, p: Seq<char>, i: int) -> bool {
    0 <= i && i + p.len() <= s.len() && s.subrange(i, i + p.len()) == p
}

pub open spec fn has_prefix(s: Seq<char>, p: Seq<char>) -> bool {
    occurs_at(s, p, 0)
}

pub open spec fn has_suffix(s: Seq<char>, p: Seq<char>) -> bool {
    occurs_at(s, p, s.len() - p.len())
}

/// The first position at or after `i` where `p` stands in `s`.
pub open spec fn find_from(s: Seq<char>, p: Seq<char>, i: int) -> Option<int>
    decreases s.len() - i + 1,
{
    if i < 0 || i + p.len() > s.len() {
        None
    } else if occurs_at(s, p, i) {
        Some(i)
    } else {
        find_from(s, p, i + 1)
    }
}

pub open spec fn find_of(s: Seq<char>, p: Seq<char>) -> Option<int> {
    find_from(s, p, 0)
}

/// The last position at or before `i` where `p` stands in `s`.
pub open spec fn rfind_from(s: Seq<char>, p: Seq<char>, i: int) -> Option<int>
    decreases i + 1,
{
    if i < 0 {
        None
    } else if occurs_at(s, p, i) {
        Some(i)
    } else {
        rfind_from(s, p, i - 1)
    }
}

pub open spec fn rfind_of(s: Seq<char>, p: Seq<char>) -> Option<int> {
    rfind_from(s, p, s.len() - p.len())
}

pub open spec fn contains_text(s: Seq<char>, p: Seq<char>) -> bool {
    find_of(s, p) is Some
}

/// `find_from` gives the least position, at or after `i`, where `p` stands.
pub proof fn lemma_find_from(s: Seq<char>, p: Seq<char>, i: int)
    requires
        0 <= i,
    ensures
        match find_from(s, p, i) {
            Some(k) => i <= k && occurs_at(s, p, k) && forall|j: int| i <= j < k ==> !#[trigger] occurs_at(s, p, j),
            None => forall|j: int| i <= j ==> !#[trigger] occurs_at(s, p, j),
        },
    decreases s.len() - i + 1,
{
    if i + p.len() > s.len() {
    } else if occurs_at(s, p, i) {
    } else {
        lemma_find_from(s, p, i + 1);
    }
}

/// The pieces of `s[start..]` between the occurrences of `sep`.
pub open spec fn split_from(s: Seq<char>, sep: Seq<char>, start: int) -> Seq<Seq<char>>
    decreases s.len() - start,
{
    match find_from(s, sep, start) {
        Some(k) => if sep.len() > 0 && start <= k && k + sep.len() <= s.len() {
            seq![s.subrange(start, k)] + split_from(s, sep, k + sep.len())
        } else {
            seq![s.subrange(start, s.len() as int)]
        },
        None => seq![s.subrange(start, s.len() as int)],
    }
}

pub open spec fn split_of(s: Seq<char>, sep: Seq<char>) -> Seq<Seq<char>> {
    split_from(s, sep, 0)
}

/// The two sides of the first occurrence of `sep`.
pub open spec fn split_once_of(s: Seq<char>, sep: Seq<char>) -> Option<(Seq<char>, Seq<char>)> {
    match find_of(s, sep) {
        Some(k) => Some((s.subrange(0, k), s.subrange(k + sep.len(), s.len() as int))),
        None => None,
    }
}

/// The two sides of the last occurrence of `sep`.
pub open spec fn rsplit_once_of(s: Seq<char>, sep: Seq<char>) -> Option<(Seq<char>, Seq<char>)> {
    match rfind_of(s, sep) {
        Some(k) => Some((s.subrange(0, k), s.subrange(k + sep.len(), s.len() as int))),
        None => None,
    }
}

pub open spec fn strip_prefix_of(s: Seq<char>, p: Seq<char>) -> Option<Seq<char>> {
    if has_prefix(s, p) {
        Some(s.subrange(p.len() as int, s.len() as int))
    } else {
        None
    }
}

pub open spec fn strip_suffix_of(s: Seq<char>, p: Seq<char>) -> Option<Seq<char>> {
    if has_suffix(s, p) {
        Some(s.subrange(0, s.len() - p.len()))
    } else {
        None
    }
}

/// The parts in order, with `sep` between neighbours.
pub open spec fn join_of(parts: Seq<Seq<char>>, sep: Seq<char>) -> Seq<char>
    decreases parts.len(),
{
    if parts.len() == 0 {
        seq![]
    } else if parts.len() == 1 {
        parts[0]
    } else {
        join_of(parts.drop_last(), sep) + sep + parts.last()
    }
}

/// `s` with every occurrence of `from` (left to right, not overlapping) replaced.
pub open spec fn replace_of(s: Seq<char>, from: Seq<char>, to: Seq<char>) -> Seq<char> {
    join_of(split_of(s, from), to)
}

pub open spec fn lower_ascii(c: char) -> char {
    if 'A' <= c <= 'Z' {
        ((c as u8) + 32u8) as u8 as char
    } else {
        c
    }
}

pub open spec fn lower_ascii_of(s: Seq<char>) -> Seq<char> {
    Seq::new(s.len(), |i: int| lower_ascii(s[i]))
}

/// The characters of a string.
pub fn chars_of(s: &str) -> (r: Vec<char>)
    ensures
        r@ == s@,
{
    let mut r: Vec<char> = Vec::new();
    for c in it: s.chars()
        invariant
            it.seq() == s@,
            r@ == s@.subrange(0, it.index()),
    {
        r.push(c);
        assert(s@.subrange(0, it.index() + 1) =~= s@.subrange(0, it.index() as int).push(c));
    }
    assert(s@.subrange(0, s@.len() as int) =~= s@);
    r
}

/// The string made of `v[i..j]`.
pub fn string_range(v: &Vec<char>, i: usize, j: usize) -> (r: String)
    requires
        i <= j <= v.len(),
    ensures
        r@ == v@.subrange(i as int, j as int),
{
    let mut r = String::new();
    let mut k: usize = i;
    assert(v@.subrange(i as int, i as int) =~= Seq::<char>::empty());
    while k < j
        invariant
            i <= k <= j <= v.len(),
            r@ == v@.subrange(i as int, k as int),
        decreases j - k,
    {
        r.push(v[k]);
        assert(v@.subrange(i as int, k + 1) =~= v@.subrange(i as int, k as int).push(v@[k as int]));
        k = k + 1;
    }
    r
}

pub fn string_of(v: &Vec<char>) -> (r: String)
    ensures
        r@ == v@,
{
    let r = string_range(v, 0, v.len());
    assert(v@.subrange(0, v@.len() as int) =~= v@);
    r
}

/// The part of `s` between two character positions.
pub fn substring(s: &str, i: usize, j: usize) -> (r: String)
    requires
        i <= j <= s@.len(),
    ensures
        r@ == s@.subrange(i as int, j as int),
{
    let v = chars_of(s);
    string_range(&v, i, j)
}

pub fn is_space_char(c: char) -> (r: bool)
    ensures
        r == is_space(c),
{
    ('\u{9}' <= c && c <= '\u{d}') || c == ' ' || c == '\u{85}' || c == '\u{a0}' || c == '\u{1680}' || ('\u{2000}'
        <= c && c <= '\u{200a}') || c == '\u{2028}' || c == '\u{2029}' || c == '\u{202f}' || c == '\u{205f}' || c
        == '\u{3000}'
}

pub fn is_control_char(c: char) -> (r: bool)
    ensures
        r == is_control(c),
{
    c <= '\u{1f}' || ('\u{7f}' <= c && c <= '\u{9f}')
}

pub fn is_digit_char(c: char) -> (r: bool)
    ensures
        r == is_digit(c),
{
    '0' <= c && c <= '9'
}

pub fn is_ascii_letter_char(c: char) -> (r: bool)
    ensures
        r == is_ascii_letter(c),
{
    ('a' <= c && c <= 'z') || ('A' <= c && c <= 'Z')
}

/// Whether the two strings hold the same characters.
pub fn same(a: &str, b: &str) -> (r: bool)
    ensures
        r == (a@ == b@),
{
    let x = chars_of(a);
    let y = chars_of(b);
    same_chars(&x, &y)
}

pub fn same_chars(x: &Vec<char>, y: &Vec<char>) -> (r: bool)
    ensures
        r == (x@ == y@),
{
    if x.len() != y.len() {
        return false;
    }
    let mut i: usize = 0;
    while i < x.len()
        invariant
            i <= x.len(),
            x.len() == y.len(),
            forall|k: int| 0 <= k < i ==> x@[k] == y@[k],
        decreases x.len() - i,
    {
        if x[i] != y[i] {
            return false;
        }
        i = i + 1;
    }
    assert(x@ =~= y@);
    true
}

/// Whether the string has no characters.
pub fn is_empty_text(s: &str) -> (r: bool)
    ensures
        r == (s@.len() == 0),
{
    s.unicode_len() == 0
}

pub fn copy(s: &str) -> (r: String)
    ensures
        r@ == s@,
{
    s.to_owned()
}

proof fn lemma_trim_start_step(s: Seq<char>, i: int)
    requires
        0 <= i < s.len(),
        is_space(s[i]),
    ensures
        trim_start_of(s.subrange(i, s.len() as int)) == trim_start_of(s.subrange(i + 1, s.len() as int)),
{
    let t = s.subrange(i, s.len() as int);
    assert(t.subrange(1, t.len() as int) =~= s.subrange(i + 1, s.len() as int));
}

fn skip_spaces(v: &Vec<char>) -> (i: usize)
    ensures
        i <= v.len(),
        trim_start_of(v@) == v@.subrange(i as int, v.len() as int),
{
    let mut i: usize = 0;
    assert(v@.subrange(0, v.len() as int) =~= v@);
    while i < v.len() && is_space_char(v[i])
        invariant
            i <= v.len(),
            trim_start_of(v@) == trim_start_of(v@.subrange(i as int, v.len() as int)),
        decreases v.len() - i,
    {
        proof {
            lemma_trim_start_step(v@, i as int);
        }
        i = i + 1;
    }
    i
}

fn skip_spaces_back(v: &Vec<char>, i: usize) -> (j: usize)
    requires
        i <= v.len(),
    ensures
        i <= j <= v.len(),
        trim_end_of(v@.subrange(i as int, v.len() as int)) == v@.subrange(i as int, j as int),
{
    let mut j: usize = v.len();
    while i < j && is_space_char(v[j - 1])
        invariant
            i <= j <= v.len(),
            trim_end_of(v@.subrange(i as int, v.len() as int)) == trim_end_of(v@.subrange(i as int, j as int)),
        decreases j,
    {
        assert(v@.subrange(i as int, j as int).drop_last() =~= v@.subrange(i as int, j - 1));
        j = j - 1;
    }
    j
}

pub fn trim(s: &str) -> (r: String)
    ensures
        r@ == trim_of(s@),
{
    let v = chars_of(s);
    let i = skip_spaces(&v);
    let j = skip_spaces_back(&v, i);
    string_range(&v, i, j)
}

pub fn trim_start(s: &str) -> (r: String)
    ensures
        r@ == trim_start_of(s@),
{
    let v = chars_of(s);
    let i = skip_spaces(&v);
    string_range(&v, i, v.len())
}

pub fn trim_end(s: &str) -> (r: String)
    ensures
        r@ == trim_end_of(s@),
{
    let v = chars_of(s);
    let j = skip_spaces_back(&v, 0);
    assert(v@.subrange(0, v.len() as int) =~= v@);
    string_range(&v, 0, j)
}

/// Whether `p` stands in `v` at position `i`.
pub fn chars_at(v: &Vec<char>, p: &Vec<char>, i: usize) -> (r: bool)
    ensures
        r == occurs_at(v@, p@, i as int),
{
    if p.len() > v.len() || i > v.len() - p.len() {
        return false;
    }
    let mut k: usize = 0;
    while k < p.len()
        invariant
            k <= p.len(),
            i + p.len() <= v.len(),
            forall|j: int| 0 <= j < k ==> v@[i + j] == p@[j],
        decreases p.len() - k,
    {
        if v[i + k] != p[k] {
            assert(v@.subrange(i as int, i + p.len())[k as int] != p@[k as int]);
            return false;
        }
        k = k + 1;
    }
    assert(v@.subrange(i as int, i + p.len()) =~= p@);
    true
}

/// The first position at or after `from` where `p` stands in `v`.
pub fn chars_find(v: &Vec<char>, p: &Vec<char>, from: usize) -> (r: Option<usize>)
    ensures
        match r {
            Some(k) => find_from(v@, p@, from as int) == Some(k as int) && from <= k && k + p.len() <= v.len(),
            None => find_from(v@, p@, from as int) is None,
        },
{
    if p.len() > v.len() {
        return None;
    }
    let last: usize = v.len() - p.len();
    let mut i: usize = from;
    while i <= last
        invariant
            last + p.len() == v.len(),
            from <= i,
            find_from(v@, p@, from as int) == find_from(v@, p@, i as int),
        decreases v.len() + 1 - i,
    {
        if chars_at(v, p, i) {
            return Some(i);
        }
        if i == last {
            assert(find_from(v@, p@, i + 1) is None);
            return None;
        }
        i = i + 1;
    }
    None
}

pub fn find(s: &str, p: &str) -> (r: Option<usize>)
    ensures
        match r {
            Some(k) => find_of(s@, p@) == Some(k as int) && k + p@.len() <= s@.len(),
            None => find_of(s@, p@) is None,
        },
{
    chars_find(&chars_of(s), &chars_of(p), 0)
}

pub fn contains(s: &str, p: &str) -> (r: bool)
    ensures
        r == contains_text(s@, p@),
{
    find(s, p).is_some()
}

pub fn rfind(s: &str, p: &str) -> (r: Option<usize>)
    ensures
        match r {
            Some(k) => rfind_of(s@, p@) == Some(k as int) && k + p@.len() <= s@.len(),
            None => rfind_of(s@, p@) is None,
        },
{
    let v = chars_of(s);
    let q = chars_of(p);
    if q.len() > v.len() {
        return None;
    }
    let mut i: usize = v.len() - q.len();
    loop
        invariant
            v@ == s@,
            q@ == p@,
            i + q.len() <= v.len(),
            rfind_of(s@, p@) == rfind_from(s@, p@, i as int),
        decreases i,
    {
        if chars_at(&v, &q, i) {
            return Some(i);
        }
        if i == 0 {
            assert(rfind_from(s@, p@, -1) is None);
            return None;
        }
        i = i - 1;
    }
}

pub fn starts_with(s: &str, p: &str) -> (r: bool)
    ensures
        r == has_prefix(s@, p@),
{
    chars_at(&chars_of(s), &chars_of(p), 0)
}

pub fn ends_with(s: &str, p: &str) -> (r: bool)
    ensures
        r == has_suffix(s@, p@),
{
    let v = chars_of(s);
    let q = chars_of(p);
    if q.len() > v.len() {
        return false;
    }
    chars_at(&v, &q, v.len() - q.len())
}

pub fn strip_prefix(s: &str, p: &str) -> (r: Option<String>)
    ensures
        opt_text(r) == strip_prefix_of(s@, p@),
{
    let v = chars_of(s);
    let q = chars_of(p);
    if chars_at(&v, &q, 0) {
        Some(string_range(&v, q.len(), v.len()))
    } else {
        None
    }
}

pub fn strip_suffix(s: &str, p: &str) -> (r: Option<String>)
    ensures
        opt_text(r) == strip_suffix_of(s@, p@),
{
    if ends_with(s, p) {
        let v = chars_of(s);
        Some(string_range(&v, 0, v.len() - p.unicode_len()))
    } else {
        None
    }
}

pub fn split(s: &str, sep: &str) -> (r: Vec<String>)
    requires
        sep@.len() > 0,
    ensures
        texts(r@) == split_of(s@, sep@),
        r.len() > 0,
{
    let v = chars_of(s);
    let q = chars_of(sep);
    let mut r: Vec<String> = Vec::new();
    let mut start: usize = 0;
    assert(texts(r@) + split_from(s@, sep@, 0) =~= split_from(s@, sep@, 0));
    loop
        invariant
            v@ == s@,
            q@ == sep@,
            q.len() > 0,
            start <= v.len(),
            split_of(s@, sep@) == texts(r@) + split_from(s@, sep@, start as int),
        decreases v.len() - start,
    {
        let ghost before = texts(r@);
        match chars_find(&v, &q, start) {
            Some(k) => {
                r.push(string_range(&v, start, k));
                assert(texts(r@) =~= before.push(s@.subrange(start as int, k as int)));
                assert(before + (seq![s@.subrange(start as int, k as int)] + split_from(s@, sep@, k + q.len()))
                    =~= texts(r@) + split_from(s@, sep@, k + q.len()));
                start = k + q.len();
            },
            None => {
                r.push(string_range(&v, start, v.len()));
                assert(texts(r@) =~= before + seq![s@.subrange(start as int, s@.len() as int)]);
                return r;
            },
        }
    }
}

pub fn split_once(s: &str, sep: &str) -> (r: Option<(String, String)>)
    ensures
        match r {
            Some((a, b)) => split_once_of(s@, sep@) == Some((a@, b@)),
            None => split_once_of(s@, sep@) is None,
        },
{
    match find(s, sep) {
        Some(k) => {
            let v = chars_of(s);
            let end: usize = v.len();
            Some((string_range(&v, 0, k), string_range(&v, k + sep.unicode_len(), end)))
        },
        None => None,
    }
}

pub fn rsplit_once(s: &str, sep: &str) -> (r: Option<(String, String)>)
    ensures
        match r {
            Some((a, b)) => rsplit_once_of(s@, sep@) == Some((a@, b@)),
            None => rsplit_once_of(s@, sep@) is None,
        },
{
    match rfind(s, sep) {
        Some(k) => {
            let v = chars_of(s);
            let end: usize = v.len();
            Some((string_range(&v, 0, k), string_range(&v, k + sep.unicode_len(), end)))
        },
        None => None,
    }
}

pub fn concat(a: &str, b: &str) -> (r: String)
    ensures
        r@ == a@ + b@,
{
    let mut r = a.to_owned();
    r.append(b);
    r
}

pub fn concat3(a: &str, b: &str, c: &str) -> (r: String)
    ensures
        r@ == a@ + b@ + c@,
{
    let mut r = a.to_owned();
    r.append(b);
    r.append(c);
    r
}

pub fn join(parts: &Vec<String>, sep: &str) -> (r: String)
    ensures
        r@ == join_of(texts(parts@), sep@),
{
    let mut r = String::new();
    let mut i: usize = 0;
    assert(texts(parts@).take(0) =~= seq![]);
    while i < parts.len()
        invariant
            i <= parts.len(),
            r@ == join_of(texts(parts@).take(i as int), sep@),
        decreases parts.len() - i,
    {
        if i > 0 {
            r.append(sep);
        }
        r.append(parts[i].as_str());
        proof {
            let t = texts(parts@);
            assert(t.take(i + 1).drop_last() =~= t.take(i as int));
            if i == 0 {
                assert(r@ =~= parts@[0]@);
            }
        }
        i = i + 1;
    }
    assert(texts(parts@).take(parts.len() as int) =~= texts(parts@));
    r
}

pub fn replace(s: &str, from: &str, to: &str) -> (r: String)
    requires
        from@.len() > 0,
    ensures
        r@ == replace_of(s@, from@, to@),
{
    join(&split(s, from), to)
}

pub fn lower_ascii_char(c: char) -> (r: char)
    ensures
        r == lower_ascii(c),
{
    if 'A' <= c && c <= 'Z' {
        ((c as u8) + 32u8) as char
    } else {
        c
    }
}

pub fn to_ascii_lowercase(s: &str) -> (r: String)
    ensures
        r@ == lower_ascii_of(s@),
{
    let v = chars_of(s);
    let mut r = String::new();
    let mut i: usize = 0;
    while i < v.len()
        invariant
            v@ == s@,
            i <= v.len(),
            r@ == lower_ascii_of(s@).take(i as int),
        decreases v.len() - i,
    {
        r.push(lower_ascii_char(v[i]));
        assert(lower_ascii_of(s@).take(i + 1) =~= lower_ascii_of(s@).take(i as int).push(lower_ascii(s@[i as int])));
        i = i + 1;
    }
    assert(lower_ascii_of(s@).take(s@.len() as int) =~= lower_ascii_of(s@));
    r
}

/// Whether the two strings differ at most in the case of ASCII letters.
pub fn eq_ignore_ascii_case(a: &str, b: &str) -> (r: bool)
    ensures
        r == (lower_ascii_of(a@) == lower_ascii_of(b@)),
{
    same(to_ascii_lowercase(a).as_str(), to_ascii_lowercase(b).as_str())
}

/// Copies a list of strings.
pub fn copy_texts(v: &Vec<String>) -> (r: Vec<String>)
    ensures
        texts(r@) == texts(v@),
{
    let mut r: Vec<String> = Vec::new();
    let mut i: usize = 0;
    while i < v.len()
        invariant
            i <= v.len(),
            texts(r@) == texts(v@).take(i as int),
        decreases v.len() - i,
    {
        let ghost before = texts(r@);
        r.push(v[i].clone());
        assert(texts(r@) =~= before.push(v@[i as int]@));
        assert(texts(r@) =~= texts(v@).take(i + 1));
        i = i + 1;
    }
    assert(texts(v@).take(v.len() as int) =~= texts(v@));
    r
}

/// Whether one of the strings equals `s`.
pub fn list_contains(v: &Vec<String>, s: &str) -> (r: bool)
    ensures
        r == texts(v@).contains(s@),
{
    let mut i: usize = 0;
    while i < v.len()
        invariant
            i <= v.len(),
            forall|k: int| 0 <= k < i ==> texts(v@)[k] != s@,
        decreases v.len() - i,
    {
        if same(v[i].as_str(), s) {
            assert(texts(v@)[i as int] == s@);
            return true;
        }
        i = i + 1;
    }
    false
}

/// The first position at or after `i` that holds no white space.
pub open spec fn space_end(s: Seq<char>, i: int) -> int
    decreases s.len() - i,
{
    if 0 <= i < s.len() && is_space(s[i]) {
        space_end(s, i + 1)
    } else {
        i
    }
}

/// The first position at or after `i` that holds white space.
pub open spec fn word_end(s: Seq<char>, i: int) -> int
    decreases s.len() - i,
{
    if 0 <= i < s.len() && !is_space(s[i]) {
        word_end(s, i + 1)
    } else {
        i
    }
}

/// The words of `s[i..]`: the longest runs without white space.
pub open spec fn words_from(s: Seq<char>, i: int) -> Seq<Seq<char>>
    decreases s.len() - i,
{
    let a = space_end(s, i);
    let b = word_end(s, a);
    if i <= a < b <= s.len() {
        seq![s.subrange(a, b)] + words_from(s, b)
    } else {
        seq![]
    }
}

pub open spec fn words_of(s: Seq<char>) -> Seq<Seq<char>> {
    words_from(s, 0)
}

pub fn chars_space_end(v: &Vec<char>, i: usize) -> (r: usize)
    requires
        i <= v.len(),
    ensures
        r == space_end(v@, i as int),
        i <= r <= v.len(),
{
    let mut k: usize = i;
    while k < v.len() && is_space_char(v[k])
        invariant
            i <= k <= v.len(),
            space_end(v@, i as int) == space_end(v@, k as int),
        decreases v.len() - k,
    {
        k = k + 1;
    }
    k
}

pub fn chars_word_end(v: &Vec<char>, i: usize) -> (r: usize)
    requires
        i <= v.len(),
    ensures
        r == word_end(v@, i as int),
        i <= r <= v.len(),
{
    let mut k: usize = i;
    while k < v.len() && !is_space_char(v[k])
        invariant
            i <= k <= v.len(),
            word_end(v@, i as int) == word_end(v@, k as int),
        decreases v.len() - k,
    {
        k = k + 1;
    }
    k
}

pub fn split_whitespace(s: &str) -> (r: Vec<String>)
    ensures
        texts(r@) == words_of(s@),
{
    let v = chars_of(s);
    let mut r: Vec<String> = Vec::new();
    let mut i: usize = 0;
    assert(texts(r@) + words_from(s@, 0) =~= words_of(s@));
    loop
        invariant
            v@ == s@,
            i <= v.len(),
            words_of(s@) == texts(r@) + words_from(s@, i as int),
        decreases v.len() - i,
    {
        let a = chars_space_end(&v, i);
        let b = chars_word_end(&v, a);
        if a == b {
            assert(texts(r@) + words_from(s@, i as int) =~= texts(r@));
            return r;
        }
        let ghost before = texts(r@);
        r.push(string_range(&v, a, b));
        assert(texts(r@) =~= before.push(s@.subrange(a as int, b as int)));
        assert(before + (seq![s@.subrange(a as int, b as int)] + words_from(s@, b as int)) =~= texts(r@) + words_from(
            s@,
            b as int,
        ));
        i = b;
    }
}

/// The value of a string of decimal digits.
pub open spec fn digits_value(s: Seq<char>) -> int
    decreases s.len(),
{
    if s.len() == 0 {
        0
    } else {
        digits_value(s.drop_last()) * 10 + (s.last() as int - '0' as int)
    }
}

pub open spec fn all_digits(s: Seq<char>) -> bool {
    forall|i: int| 0 <= i < s.len() ==> is_digit(#[trigger] s[i])
}

/// The number written by one or more decimal digits.
pub open spec fn digits_of(s: Seq<char>) -> Option<int> {
    if s.len() > 0 && all_digits(s) {
        Some(digits_value(s))
    } else {
        None
    }
}

/// The number that `s` writes, with a sign or without.
pub open spec fn signed_of(s: Seq<char>) -> Option<int> {
    if s.len() > 0 && s[0] == '-' {
        match digits_of(s.subrange(1, s.len() as int)) {
            Some(n) => Some(-n),
            None => None,
        }
    } else {
        unsigned_of(s)
    }
}

/// The number that `s` writes, with a plus sign or without.
pub open spec fn unsigned_of(s: Seq<char>) -> Option<int> {
    if s.len() > 0 && s[0] == '+' {
        digits_of(s.subrange(1, s.len() as int))
    } else {
        digits_of(s)
    }
}

/// The value of `o`, if it lies between the bounds.
pub open spec fn within(o: Option<int>, lo: int, hi: int) -> Option<int> {
    match o {
        Some(n) => if lo <= n <= hi {
            Some(n)
        } else {
            None
        },
        None => None,
    }
}

proof fn lemma_digits_grow(s: Seq<char>, i: int)
    requires
        0 <= i <= s.len(),
        all_digits(s),
    ensures
        0 <= digits_value(s.take(i)) <= digits_value(s),
    decreases s.len(),
{
    if s.len() == 0 {
        assert(s.take(i) =~= s);
    } else {
        assert(all_digits(s.drop_last()));
        assert(is_digit(s[s.len() - 1]));
        lemma_digits_grow(s.drop_last(), s.len() - 1);
        if i == s.len() {
            assert(s.take(i) =~= s);
            assert(s.drop_last().take(s.len() - 1) =~= s.drop_last());
        } else {
            lemma_digits_grow(s.drop_last(), i);
            assert(s.drop_last().take(i) =~= s.take(i));
        }
    }
}

/// The number written by `v[from..]`, if it is at most `hi`.
fn parse_digits(v: &Vec<char>, from: usize, hi: u64) -> (r: Option<u64>)
    requires
        from <= v.len(),
    ensures
        match r {
            Some(n) => n <= hi && digits_of(v@.subrange(from as int, v.len() as int)) == Some(n as int),
            None => match digits_of(v@.subrange(from as int, v.len() as int)) {
                Some(n) => n > hi,
                None => true,
            },
        },
{
    let ghost s = v@.subrange(from as int, v.len() as int);
    if from == v.len() {
        return None;
    }
    let mut k: usize = from;
    let mut n: u64 = 0;
    let mut over: bool = false;
    assert(s.take(0) =~= seq![]);
    while k < v.len()
        invariant
            from <= k <= v.len(),
            s == v@.subrange(from as int, v.len() as int),
            forall|i: int| 0 <= i < k - from ==> is_digit(#[trigger] s[i]),
            over ==> digits_value(s.take(k - from)) > hi,
            !over ==> n == digits_value(s.take(k - from)) && n <= hi,
        decreases v.len() - k,
    {
        let c = v[k];
        assert(c == s[k - from]);
        if !is_digit_char(c) {
            assert(!all_digits(s));
            return None;
        }
        let d: u64 = ((c as u32) - 48) as u64;
        proof {
            assert(s.take(k - from + 1).drop_last() =~= s.take(k - from));
            assert(all_digits(s.take(k - from + 1)));
            lemma_digits_grow(s.take(k - from + 1), k - from);
            assert(s.take(k - from + 1).take(k - from) =~= s.take(k - from));
        }
        if !over {
            if (n as u128) * 10 + (d as u128) > hi as u128 {
                over = true;
            } else {
                n = n * 10 + d;
            }
        }
        k = k + 1;
    }
    assert(s.take(s.len() as int) =~= s);
    if over {
        None
    } else {
        Some(n)
    }
}

/// The characters of a decimal digit.
pub open spec fn digit_char(n: int) -> char {
    (n + '0' as int) as u8 as char
}

/// A number in decimal digits.
pub open spec fn decimal_of(n: int) -> Seq<char>
    decreases n,
{
    if n < 10 {
        seq![digit_char(n)]
    } else {
        decimal_of(n / 10).push(digit_char(n % 10))
    }
}

/// Writes a number in decimal digits.
pub fn decimal(n: u64) -> (r: String)
    ensures
        r@ == decimal_of(n as int),
    decreases n,
{
    let d = ((n % 10) as u8 + 48u8) as char;
    let mut r = if n < 10 {
        String::new()
    } else {
        decimal(n / 10)
    };
    r.push(d);
    assert(r@ =~= decimal_of(n as int));
    r
}

/// Whether a character is a hexadecimal digit.
pub open spec fn is_hex_digit(c: char) -> bool {
    is_digit(c) || 'a' <= c <= 'f' || 'A' <= c <= 'F'
}

pub open spec fn hex_digit_value(c: char) -> int {
    if is_digit(c) {
        c as int - '0' as int
    } else if 'a' <= c <= 'f' {
        c as int - 'a' as int + 10
    } else {
        c as int - 'A' as int + 10
    }
}

pub open spec fn hex_value(s: Seq<char>) -> int
    decreases s.len(),
{
    if s.len() == 0 {
        0
    } else {
        hex_value(s.drop_last()) * 16 + hex_digit_value(s.last())
    }
}

/// The number that one or more hexadecimal digits write.
pub open spec fn hex_of(s: Seq<char>) -> Option<int> {
    if s.len() > 0 && forall|i: int| 0 <= i < s.len() ==> is_hex_digit(#[trigger] s[i]) {
        Some(hex_value(s))
    } else {
        None
    }
}

proof fn lemma_hex_grow(s: Seq<char>, i: int)
    requires
        0 <= i <= s.len(),
        forall|k: int| 0 <= k < s.len() ==> is_hex_digit(#[trigger] s[k]),
    ensures
        0 <= hex_value(s.take(i)) <= hex_value(s),
    decreases s.len(),
{
    if s.len() == 0 {
        assert(s.take(i) =~= s);
    } else {
        assert(is_hex_digit(s[s.len() - 1]));
        lemma_hex_grow(s.drop_last(), s.len() - 1);
        if i == s.len() {
            assert(s.take(i) =~= s);
            assert(s.drop_last().take(s.len() - 1) =~= s.drop_last());
        } else {
            lemma_hex_grow(s.drop_last(), i);
            assert(s.drop_last().take(i) =~= s.take(i));
        }
    }
}

/// Reads hexadecimal digits, if their number is at most `hi`.
pub fn parse_hex(s: &str, hi: u64) -> (r: Option<u64>)
    ensures
        match r {
            Some(n) => within(hex_of(s@), 0, hi as int) == Some(n as int),
            None => within(hex_of(s@), 0, hi as int) is None,
        },
{
    let v = chars_of(s);
    if v.len() == 0 {
        return None;
    }
    let mut k: usize = 0;
    let mut n: u64 = 0;
    let mut over: bool = false;
    assert(s@.take(0) =~= seq![]);
    while k < v.len()
        invariant
            v@ == s@,
            k <= v.len(),
            forall|i: int| 0 <= i < k ==> is_hex_digit(#[trigger] s@[i]),
            over ==> hex_value(s@.take(k as int)) > hi,
            !over ==> n == hex_value(s@.take(k as int)) && n <= hi,
        decreases v.len() - k,
    {
        let c = v[k];
        assert(c == s@[k as int]);
        let d: u64 = if '0' <= c && c <= '9' {
            ((c as u32) - 48) as u64
        } else if 'a' <= c && c <= 'f' {
            ((c as u32) - 87) as u64
        } else if 'A' <= c && c <= 'F' {
            ((c as u32) - 55) as u64
        } else {
            assert(!is_hex_digit(s@[k as int]));
            return None;
        };
        proof {
            assert(s@.take(k + 1).drop_last() =~= s@.take(k as int));
            lemma_hex_grow(s@.take(k + 1), k as int);
            assert(s@.take(k + 1).take(k as int) =~= s@.take(k as int));
        }
        if !over {
            if (n as u128) * 16 + (d as u128) > hi as u128 {
                over = true;
            } else {
                n = n * 16 + d;
            }
        }
        k = k + 1;
    }
    assert(s@.take(s@.len() as int) =~= s@);
    if over {
        None
    } else {
        proof {
            lemma_hex_grow(s@, 0);
        }
        Some(n)
    }
}

/// Whether a number is the code of a character.
pub open spec fn is_char_code(n: int) -> bool {
    0 <= n < 0xD800 || 0xE000 <= n <= 0x10FFFF
}

/// The code of a character.
pub open spec fn code_of(c: char) -> int {
    c as int
}

/// The code of a character as a number.
pub fn char_code(c: char) -> (r: u32)
    ensures
        r as int == code_of(c),
        is_char_code(r as int),
{
    c as u32
}

/// The character of a code.
pub open spec fn char_of_code(n: int) -> char {
    choose|c: char| #[trigger] code_of(c) == n
}

/// `char::from_u32` gives the character of a code, for every number that is one.
pub assume_specification[ char::from_u32 ](n: u32) -> (r: Option<char>)
    ensures
        match r {
            Some(c) => is_char_code(n as int) && code_of(c) == n,
            None => !is_char_code(n as int),
        },
;

/// Whether `s` starts with `p`, up to the case of ASCII letters.
pub open spec fn has_prefix_ignore_case(s: Seq<char>, p: Seq<char>) -> bool {
    p.len() <= s.len() && lower_ascii_of(s.subrange(0, p.len() as int)) == lower_ascii_of(p)
}

pub fn starts_with_ignore_case(s: &str, p: &str) -> (r: bool)
    ensures
        r == has_prefix_ignore_case(s@, p@),
{
    let v = chars_of(s);
    let n: usize = p.unicode_len();
    if n > v.len() {
        return false;
    }
    let head = string_range(&v, 0, n);
    eq_ignore_ascii_case(head.as_str(), p)
}

/// Whether a character has Unicode's `Alphabetic` property.
pub uninterp spec fn alphabetic(c: char) -> bool;

/// `char::is_alphabetic`.
#[verifier::external_body]
pub(crate) fn is_alphabetic(c: char) -> (r: bool)
    ensures
        r == alphabetic(c),
{
    c.is_alphabetic()
}

/// What follows a prefix, up to the case of ASCII letters.
pub open spec fn strip_prefix_ignore_case_of(s: Seq<char>, p: Seq<char>) -> Option<Seq<char>> {
    if has_prefix_ignore_case(s, p) {
        Some(s.subrange(p.len() as int, s.len() as int))
    } else {
        None
    }
}

pub fn strip_prefix_ascii_case(s: &str, p: &str) -> (r: Option<String>)
    ensures
        opt_text(r) == strip_prefix_ignore_case_of(s@, p@),
{
    if starts_with_ignore_case(s, p) {
        let v = chars_of(s);
        let n: usize = v.len();
        Some(string_range(&v, p.unicode_len(), n))
    } else {
        None
    }
}

/// The first position at or after `i` where `p` stands, up to the case of ASCII
/// letters.
pub open spec fn find_ignore_case_from(s: Seq<char>, p: Seq<char>, i: int) -> Option<int> {
    find_from(lower_ascii_of(s), lower_ascii_of(p), i)
}

pub fn find_ascii_case(s: &str, p: &str) -> (r: Option<usize>)
    ensures
        match r {
            Some(k) => find_ignore_case_from(s@, p@, 0) == Some(k as int) && k + p@.len() <= s@.len(),
            None => find_ignore_case_from(s@, p@, 0) is None,
        },
{
    find(to_ascii_lowercase(s).as_str(), to_ascii_lowercase(p).as_str())
}

/// `s` without the leading characters `c`.
pub open spec fn trim_start_char(s: Seq<char>, c: char) -> Seq<char>
    decreases s.len(),
{
    if s.len() > 0 && s[0] == c {
        trim_start_char(s.subrange(1, s.len() as int), c)
    } else {
        s
    }
}

pub fn trim_start_of_char(s: &str, c: char) -> (r: String)
    ensures
        r@ == trim_start_char(s@, c),
{
    let v = chars_of(s);
    let mut i: usize = 0;
    assert(v@.subrange(0, v.len() as int) =~= v@);
    while i < v.len() && v[i] == c
        invariant
            i <= v.len(),
            trim_start_char(v@, c) == trim_start_char(v@.subrange(i as int, v.len() as int), c),
        decreases v.len() - i,
    {
        let ghost t = v@.subrange(i as int, v.len() as int);
        assert(t.subrange(1, t.len() as int) =~= v@.subrange(i + 1, v.len() as int));
        i = i + 1;
    }
    string_range(&v, i, v.len())
}

/// `s` without a prefix, as often as it is there.
pub open spec fn without_prefixes(s: Seq<char>, p: Seq<char>) -> Seq<char>
    decreases s.len(),
{
    if p.len() > 0 && has_prefix(s, p) {
        without_prefixes(s.subrange(p.len() as int, s.len() as int), p)
    } else {
        s
    }
}

/// `s` without a suffix, as often as it is there.
pub open spec fn without_suffixes(s: Seq<char>, p: Seq<char>) -> Seq<char>
    decreases s.len(),
{
    if p.len() > 0 && has_suffix(s, p) {
        without_suffixes(s.subrange(0, s.len() - p.len()), p)
    } else {
        s
    }
}

pub fn trim_start_matches(s: &str, p: &str) -> (r: String)
    ensures
        r@ == without_prefixes(s@, p@),
    decreases s@.len(),
{
    if is_empty_text(p) {
        return s.to_owned();
    }
    match strip_prefix(s, p) {
        Some(t) => trim_start_matches(t.as_str(), p),
        None => s.to_owned(),
    }
}

pub fn trim_end_matches(s: &str, p: &str) -> (r: String)
    ensures
        r@ == without_suffixes(s@, p@),
    decreases s@.len(),
{
    if is_empty_text(p) {
        return s.to_owned();
    }
    match strip_suffix(s, p) {
        Some(t) => trim_end_matches(t.as_str(), p),
        None => s.to_owned(),
    }
}

pub open spec fn is_quote(c: char) -> bool {
    c == '\'' || c == '"'
}

pub open spec fn quotes_end(s: Seq<char>) -> Seq<char>
    decreases s.len(),
{
    if s.len() > 0 && is_quote(s.last()) {
        quotes_end(s.drop_last())
    } else {
        s
    }
}

pub open spec fn quotes_start(s: Seq<char>) -> Seq<char>
    decreases s.len(),
{
    if s.len() > 0 && is_quote(s[0]) {
        quotes_start(s.subrange(1, s.len() as int))
    } else {
        s
    }
}

/// `s` without the quotes at both ends.
pub open spec fn without_quotes(s: Seq<char>) -> Seq<char> {
    quotes_end(quotes_start(s))
}

pub fn trim_quotes(s: &str) -> (r: String)
    ensures
        r@ == without_quotes(s@),
{
    let v = chars_of(s);
    let mut i: usize = 0;
    assert(v@.subrange(0, v.len() as int) =~= v@);
    while i < v.len() && (v[i] == '\'' || v[i] == '"')
        invariant
            i <= v.len(),
            quotes_start(v@) == quotes_start(v@.subrange(i as int, v.len() as int)),
        decreases v.len() - i,
    {
        let ghost t = v@.subrange(i as int, v.len() as int);
        assert(t.subrange(1, t.len() as int) =~= v@.subrange(i + 1, v.len() as int));
        i = i + 1;
    }
    let mut j: usize = v.len();
    while i < j && (v[j - 1] == '\'' || v[j - 1] == '"')
        invariant
            i <= j <= v.len(),
            quotes_end(v@.subrange(i as int, v.len() as int)) == quotes_end(v@.subrange(i as int, j as int)),
        decreases j,
    {
        assert(v@.subrange(i as int, j as int).drop_last() =~= v@.subrange(i as int, j - 1));
        j = j - 1;
    }
    string_range(&v, i, j)
}

/// Reads an `i32` as Rust's `str::parse` does.
pub fn parse_i32(s: &str) -> (r: Option<i32>)
    ensures
        match r {
            Some(n) => within(signed_of(s@), i32::MIN as int, i32::MAX as int) == Some(n as int),
            None => within(signed_of(s@), i32::MIN as int, i32::MAX as int) is None,
        },
{
    let v = chars_of(s);
    proof {
        if digits_of(s@.subrange(1, s@.len() as int)) is Some {
            lemma_digits_grow(s@.subrange(1, s@.len() as int), 0);
        }
        if digits_of(s@) is Some {
            lemma_digits_grow(s@, 0);
        }
    }
    if v.len() > 0 && v[0] == '-' {
        match parse_digits(&v, 1, 2147483648) {
            Some(n) => Some((-(n as i64)) as i32),
            None => None,
        }
    } else {
        match parse_unsigned(s, 2147483647) {
            Some(n) => Some(n as i32),
            None => None,
        }
    }
}

/// Reads an `i64` as Rust's `str::parse` does.
pub fn parse_i64(s: &str) -> (r: Option<i64>)
    ensures
        match r {
            Some(n) => within(signed_of(s@), i64::MIN as int, i64::MAX as int) == Some(n as int),
            None => within(signed_of(s@), i64::MIN as int, i64::MAX as int) is None,
        },
{
    let v = chars_of(s);
    proof {
        if digits_of(s@.subrange(1, s@.len() as int)) is Some {
            lemma_digits_grow(s@.subrange(1, s@.len() as int), 0);
        }
        if digits_of(s@) is Some {
            lemma_digits_grow(s@, 0);
        }
    }
    if v.len() > 0 && v[0] == '-' {
        match parse_digits(&v, 1, 9223372036854775808) {
            Some(n) => Some((-(n as i128)) as i64),
            None => None,
        }
    } else {
        match parse_unsigned(s, 9223372036854775807) {
            Some(n) => Some(n as i64),
            None => None,
        }
    }
}

/// Reads an unsigned number of at most `hi` as Rust's `str::parse` does.
pub fn parse_unsigned(s: &str, hi: u64) -> (r: Option<u64>)
    ensures
        match r {
            Some(n) => within(unsigned_of(s@), 0, hi as int) == Some(n as int),
            None => within(unsigned_of(s@), 0, hi as int) is None,
        },
{
    let v = chars_of(s);
    let from: usize = if v.len() > 0 && v[0] == '+' {
        1
    } else {
        0
    };
    assert(v@.subrange(0, v.len() as int) =~= v@);
    let r = parse_digits(&v, from, hi);
    r
}

/// A text in upper case.
pub uninterp spec fn upper_of(s: Seq<char>) -> Seq<char>;

pub open spec fn upper_ascii(c: char) -> char {
    if 'a' <= c <= 'z' {
        ((c as u8) - 32u8) as u8 as char
    } else {
        c
    }
}

pub open spec fn is_ascii_text(s: Seq<char>) -> bool {
    forall|i: int| 0 <= i < s.len() ==> code_of(#[trigger] s[i]) < 128
}

/// `str::to_uppercase`: of a text in ASCII, each letter in upper case.
#[verifier::external_body]
pub(crate) fn to_uppercase(s: &str) -> (r: String)
    ensures
        r@ == upper_of(s@),
        is_ascii_text(s@) ==> r@ == Seq::new(s@.len(), |i: int| upper_ascii(s@[i])),
{
    s.to_uppercase()
}

/// A text with no white space at its ends is trimmed already.
pub proof fn lemma_solid_ends(s: Seq<char>)
    requires
        s.len() > 0,
        !is_space(s[0]),
        !is_space(s.last()),
    ensures
        trim_of(s) == s,
        trim_of(" "@ + s) == s,
{
    reveal_strlit(" ");
    let t = " "@ + s;
    assert(" "@.len() == 1 && " "@[0] == ' ');
    assert(t[0] == ' ');
    assert(is_space(' '));
    assert(t.subrange(1, t.len() as int) =~= s);
    assert(trim_start_of(t) == trim_start_of(s));
}

/// A text of one character occurs where that character stands.
pub proof fn lemma_mark_at(s: Seq<char>, mark: char, i: int)
    requires
        0 <= i,
    ensures
        occurs_at(s, seq![mark], i) <==> i < s.len() && s[i] == mark,
{
    if i < s.len() {
        assert(s.subrange(i, i + 1) =~= seq![s[i]]);
        if s.subrange(i, i + 1) == seq![mark] {
            assert(s.subrange(i, i + 1)[0] == mark);
        }
    }
}

/// Splitting a text that was put together at a mark.
pub proof fn lemma_piece_split(a: Seq<char>, b: Seq<char>, mark: char, start: int)
    requires
        0 <= start <= a.len(),
        !b.contains(mark),
    ensures
        split_from(a + seq![mark] + b, seq![mark], start) == split_from(a, seq![mark], start).push(b),
    decreases a.len() - start,
{
    let s = a + seq![mark] + b;
    let sep = seq![mark];
    assert forall|j: int| start <= j implies (#[trigger] occurs_at(s, sep, j) <==> j < s.len() && s[j] == mark) by {
        lemma_mark_at(s, mark, j);
    }
    assert forall|j: int| start <= j implies (#[trigger] occurs_at(a, sep, j) <==> j < a.len() && a[j] == mark) by {
        lemma_mark_at(a, mark, j);
    }
    lemma_find_from(s, sep, start);
    lemma_find_from(a, sep, start);
    assert(s[a.len() as int] == mark);
    assert(occurs_at(s, sep, a.len() as int));
    let k = find_from(s, sep, start)->0;
    match find_from(a, sep, start) {
        Some(n) => {
            assert(s[n] == a[n]);
            assert(occurs_at(s, sep, n));
            if k < n {
                assert(s[k] == a[k]);
                assert(occurs_at(a, sep, k));
            }
            assert(k == n);
            lemma_piece_split(a, b, mark, n + 1);
            assert(s.subrange(start, n) =~= a.subrange(start, n));
            assert(split_from(s, sep, start) =~= split_from(a, sep, start).push(b));
        },
        None => {
            if k < a.len() {
                assert(s[k] == a[k]);
                assert(occurs_at(a, sep, k));
            }
            assert(k == a.len());
            let end = a.len() + 1;
            assert forall|j: int| end <= j implies !#[trigger] occurs_at(s, sep, j) by {
                lemma_mark_at(s, mark, j);
                if j < s.len() {
                    assert(s[j] == b[j - end]);
                }
            }
            lemma_find_from(s, sep, end as int);
            assert(s.subrange(start, k) =~= a.subrange(start, a.len() as int));
            assert(s.subrange(end as int, s.len() as int) =~= b);
            assert(split_from(s, sep, end as int) == seq![b]);
            assert(split_from(a, sep, start) == seq![a.subrange(start, a.len() as int)]);
            assert(sep.len() == 1);
            assert(split_from(s, sep, start) == seq![s.subrange(start, k)] + split_from(s, sep, k + sep.len()));
            assert(split_from(s, sep, start) =~= split_from(a, sep, start).push(b));
        },
    }
}

/// A text without a mark is one piece.
pub proof fn lemma_unsplit(b: Seq<char>, mark: char)
    requires
        !b.contains(mark),
    ensures
        split_of(b, seq![mark]) == seq![b],
{
    assert forall|j: int| 0 <= j implies !#[trigger] occurs_at(b, seq![mark], j) by {
        lemma_mark_at(b, mark, j);
    }
    lemma_find_from(b, seq![mark], 0);
    assert(b.subrange(0, b.len() as int) =~= b);
}

/// The pieces between marks hold no mark.
pub proof fn lemma_pieces(s: Seq<char>, mark: char, start: int, i: int)
    requires
        0 <= start <= s.len(),
        0 <= i < split_from(s, seq![mark], start).len(),
    ensures
        !split_from(s, seq![mark], start)[i].contains(mark),
    decreases s.len() - start,
{
    let sep = seq![mark];
    lemma_find_from(s, sep, start);
    let first = match find_from(s, sep, start) {
        Some(k) => s.subrange(start, k),
        None => s.subrange(start, s.len() as int),
    };
    if first.contains(mark) {
        let j = choose|j: int| 0 <= j < first.len() && first[j] == mark;
        lemma_mark_at(s, mark, start + j);
        assert(occurs_at(s, sep, start + j));
    }
    if i > 0 {
        let k = find_from(s, sep, start)->0;
        lemma_pieces(s, mark, k + 1, i - 1);
    }
}

/// Splitting at a mark undoes joining with it.
pub proof fn lemma_split_join(parts: Seq<Seq<char>>, mark: char)
    requires
        parts.len() > 0,
        forall|i: int| 0 <= i < parts.len() ==> !(#[trigger] parts[i]).contains(mark),
    ensures
        split_of(join_of(parts, seq![mark]), seq![mark]) == parts,
    decreases parts.len(),
{
    if parts.len() == 1 {
        lemma_unsplit(parts[0], mark);
        assert(parts =~= seq![parts[0]]);
    } else {
        lemma_split_join(parts.drop_last(), mark);
        lemma_piece_split(join_of(parts.drop_last(), seq![mark]), parts.last(), mark, 0);
        assert(parts =~= parts.drop_last().push(parts.last()));
    }
}

proof fn lemma_trim_start(s: Seq<char>)
    ensures
        trim_start_of(s).len() > 0 ==> !is_space(trim_start_of(s)[0]),
        forall|c: char| trim_start_of(s).contains(c) ==> #[trigger] s.contains(c),
    decreases s.len(),
{
    if s.len() > 0 && is_space(s[0]) {
        let t = s.subrange(1, s.len() as int);
        lemma_trim_start(t);
        assert forall|c: char| trim_start_of(s).contains(c) implies #[trigger] s.contains(c) by {
            assert(t.contains(c));
            let i = choose|i: int| 0 <= i < t.len() && t[i] == c;
            assert(s[i + 1] == c);
        }
    }
}

proof fn lemma_trim_end(s: Seq<char>)
    ensures
        trim_end_of(s).len() > 0 ==> !is_space(trim_end_of(s).last()) && trim_end_of(s)[0] == s[0],
        forall|c: char| trim_end_of(s).contains(c) ==> #[trigger] s.contains(c),
    decreases s.len(),
{
    if s.len() > 0 && is_space(s.last()) {
        let t = s.drop_last();
        lemma_trim_end(t);
        assert forall|c: char| trim_end_of(s).contains(c) implies #[trigger] s.contains(c) by {
            assert(t.contains(c));
            let i = choose|i: int| 0 <= i < t.len() && t[i] == c;
            assert(s[i] == c);
        }
    }
}

/// Trimming leaves nothing to trim and adds no characters.
pub proof fn lemma_trimmed(s: Seq<char>)
    ensures
        trim_of(trim_of(s)) == trim_of(s),
        forall|c: char| trim_of(s).contains(c) ==> #[trigger] s.contains(c),
{
    let a = trim_start_of(s);
    let t = trim_of(s);
    lemma_trim_start(s);
    lemma_trim_end(a);
    lemma_trim_len(a);
    if t.len() > 0 {
        assert(a.len() > 0);
        lemma_solid_ends(t);
    }
    assert forall|c: char| t.contains(c) implies #[trigger] s.contains(c) by {
        assert(a.contains(c));
    }
}

proof fn lemma_space_end(s: Seq<char>, i: int, a: int)
    requires
        0 <= i <= a <= s.len(),
        forall|k: int| i <= k < a ==> is_space(#[trigger] s[k]),
        a == s.len() || !is_space(s[a]),
    ensures
        space_end(s, i) == a,
    decreases a - i,
{
    if i < a {
        assert(is_space(s[i]));
        lemma_space_end(s, i + 1, a);
    }
}

proof fn lemma_word_end(s: Seq<char>, i: int, a: int)
    requires
        0 <= i <= a <= s.len(),
        forall|k: int| i <= k < a ==> !is_space(#[trigger] s[k]),
        a == s.len() || is_space(s[a]),
    ensures
        word_end(s, i) == a,
    decreases a - i,
{
    if i < a {
        assert(!is_space(s[i]));
        lemma_word_end(s, i + 1, a);
    }
}

proof fn lemma_run_ends(s: Seq<char>, i: int)
    requires
        0 <= i <= s.len(),
    ensures
        i <= space_end(s, i) <= s.len(),
        forall|k: int| i <= k < space_end(s, i) ==> is_space(#[trigger] s[k]),
        space_end(s, i) == s.len() || !is_space(s[space_end(s, i)]),
        i <= word_end(s, i) <= s.len(),
        forall|k: int| i <= k < word_end(s, i) ==> !is_space(#[trigger] s[k]),
        word_end(s, i) == s.len() || is_space(s[word_end(s, i)]),
    decreases s.len() - i,
{
    if i < s.len() {
        lemma_run_ends(s, i + 1);
    }
}

/// Whether a text is a word: some characters and no white space.
pub open spec fn is_word(t: Seq<char>) -> bool {
    t.len() > 0 && forall|k: int| 0 <= k < t.len() ==> !is_space(#[trigger] t[k])
}

/// Words are words.
pub proof fn lemma_words(s: Seq<char>, i: int)
    requires
        0 <= i <= s.len(),
    ensures
        forall|k: int| 0 <= k < words_from(s, i).len() ==> is_word(#[trigger] words_from(s, i)[k]),
    decreases s.len() - i,
{
    let a = space_end(s, i);
    lemma_run_ends(s, i);
    lemma_run_ends(s, a);
    let b = word_end(s, a);
    if i <= a < b <= s.len() {
        lemma_words(s, b);
        let w = s.subrange(a, b);
        assert forall|k: int| 0 <= k < w.len() implies !is_space(#[trigger] w[k]) by {
            assert(w[k] == s[a + k]);
        }
        let rest = words_from(s, b);
        assert forall|k: int| 0 <= k < words_from(s, i).len() implies is_word(#[trigger] words_from(s, i)[k]) by {
            if k > 0 {
                assert(words_from(s, i)[k] == rest[k - 1]);
            }
        }
    }
}

proof fn lemma_last_word(a: Seq<char>, b: Seq<char>, i: int)
    requires
        0 <= i <= a.len(),
        is_word(b),
    ensures
        words_from(a + seq![' '] + b, i) == words_from(a, i).push(b),
    decreases a.len() - i,
{
    let s = a + seq![' '] + b;
    assert(is_space(' '));
    let x = space_end(a, i);
    lemma_run_ends(a, i);
    lemma_run_ends(a, x);
    let y = word_end(a, x);
    if x < a.len() {
        assert forall|k: int| i <= k < x implies is_space(#[trigger] s[k]) by {
            assert(s[k] == a[k]);
        }
        assert(s[x] == a[x]);
        lemma_space_end(s, i, x);
        assert forall|k: int| x <= k < y implies !is_space(#[trigger] s[k]) by {
            assert(s[k] == a[k]);
        }
        assert(s[a.len() as int] == ' ');
        if y < a.len() {
            assert(s[y] == a[y]);
        }
        lemma_word_end(s, x, y);
        assert(x < y);
        assert(s.subrange(x, y) =~= a.subrange(x, y));
        lemma_last_word(a, b, y);
        assert(words_from(s, i) =~= words_from(a, i).push(b));
    } else {
        let n = a.len() as int;
        assert forall|k: int| i <= k < n + 1 implies is_space(#[trigger] s[k]) by {
            if k < n {
                assert(s[k] == a[k]);
            } else {
                assert(s[k] == ' ');
            }
        }
        assert(s[n + 1] == b[0]);
        lemma_space_end(s, i, n + 1);
        assert forall|k: int| n + 1 <= k < s.len() implies !is_space(#[trigger] s[k]) by {
            assert(s[k] == b[k - n - 1]);
        }
        lemma_word_end(s, n + 1, s.len() as int);
        assert(s.subrange(n + 1, s.len() as int) =~= b);
        lemma_space_end(s, s.len() as int, s.len() as int);
        lemma_word_end(s, s.len() as int, s.len() as int);
        assert(words_from(s, s.len() as int) =~= seq![]);
        assert(words_from(a, i) =~= seq![]);
        assert(words_from(s, i) =~= seq![b]);
    }
}

/// Words that are joined by blanks are the words of what that gives.
pub proof fn lemma_joined_words(words: Seq<Seq<char>>)
    requires
        forall|k: int| 0 <= k < words.len() ==> is_word(#[trigger] words[k]),
    ensures
        words_of(join_of(words, seq![' '])) == words,
    decreases words.len(),
{
    if words.len() == 0 {
        let none: Seq<char> = seq![];
        lemma_space_end(none, 0, 0);
        lemma_word_end(none, 0, 0);
        assert(words_of(none) =~= words);
    } else if words.len() == 1 {
        let t = words[0];
        assert(is_word(t));
        lemma_space_end(t, 0, 0);
        lemma_word_end(t, 0, t.len() as int);
        lemma_space_end(t, t.len() as int, t.len() as int);
        lemma_word_end(t, t.len() as int, t.len() as int);
        assert(t.subrange(0, t.len() as int) =~= t);
        assert(words_from(t, t.len() as int) =~= seq![]);
        assert(words_of(t) =~= words);
    } else {
        let before = words.drop_last();
        assert forall|k: int| 0 <= k < before.len() implies is_word(#[trigger] before[k]) by {
            assert(before[k] == words[k]);
        }
        lemma_joined_words(before);
        lemma_last_word(join_of(before, seq![' ']), words.last(), 0);
        assert(words =~= before.push(words.last()));
    }
}

proof fn lemma_occurs_join(parts: Seq<Seq<char>>, c: char, q: Seq<char>, j: int)
    requires
        q.len() > 0,
        !q.contains(c),
        occurs_at(join_of(parts, seq![c]), q, j),
    ensures
        exists|i: int, k: int| 0 <= i < parts.len() && #[trigger] occurs_at(parts[i], q, k),
    decreases parts.len(),
{
    if parts.len() == 1 {
        assert(occurs_at(parts[0], q, j));
    } else if parts.len() > 1 {
        let head = join_of(parts.drop_last(), seq![c]);
        let last = parts.last();
        let s = head + seq![c] + last;
        let n = head.len() as int;
        let m = q.len() as int;
        if j + m <= n {
            assert(head.subrange(j, j + m) =~= s.subrange(j, j + m));
            lemma_occurs_join(parts.drop_last(), c, q, j);
            let (i, k) = choose|i: int, k: int|
                0 <= i < parts.drop_last().len() && #[trigger] occurs_at(parts.drop_last()[i], q, k);
            assert(occurs_at(parts[i], q, k));
        } else if j > n {
            assert(last.subrange(j - n - 1, j - n - 1 + m) =~= s.subrange(j, j + m));
            assert(occurs_at(parts[parts.len() - 1], q, j - n - 1));
        } else {
            assert(s.subrange(j, j + m)[n - j] == c);
            assert(q[n - j] == c);
        }
    }
}

proof fn lemma_occurs_piece(s: Seq<char>, p: Seq<char>, start: int, i: int, q: Seq<char>, k: int)
    requires
        p.len() > 0,
        0 <= start <= s.len(),
        0 <= i < split_from(s, p, start).len(),
        occurs_at(split_from(s, p, start)[i], q, k),
    ensures
        q != p,
        contains_text(s, q),
    decreases s.len() - start,
{
    lemma_find_from(s, p, start);
    let end = match find_from(s, p, start) {
        Some(n) => n,
        None => s.len() as int,
    };
    if i == 0 {
        let first = s.subrange(start, end);
        assert(s.subrange(start + k, start + k + q.len()) =~= first.subrange(k, k + q.len()));
        assert(occurs_at(s, q, start + k));
        lemma_find_from(s, q, 0);
        if q == p {
            assert(start + k < end);
        }
    } else {
        lemma_occurs_piece(s, p, end + p.len(), i - 1, q, k);
    }
}

/// Replacing a text by a character leaves nothing of that text, and brings no
/// text about that does not hold the character.
pub proof fn lemma_replaced(s: Seq<char>, p: Seq<char>, c: char, q: Seq<char>)
    requires
        p.len() > 0,
        q.len() > 0,
        !q.contains(c),
        q == p || !contains_text(s, q),
    ensures
        !contains_text(replace_of(s, p, seq![c]), q),
{
    let r = replace_of(s, p, seq![c]);
    let parts = split_of(s, p);
    lemma_find_from(r, q, 0);
    if contains_text(r, q) {
        lemma_occurs_join(parts, c, q, find_of(r, q)->0);
        let (i, k) = choose|i: int, k: int| 0 <= i < parts.len() && #[trigger] occurs_at(parts[i], q, k);
        lemma_occurs_piece(s, p, 0, i, q, k);
    }
}

proof fn lemma_join_ends(parts: Seq<Seq<char>>, c: char)
    requires
        parts.len() > 0,
    ensures
        ({
            let r = join_of(parts, seq![c]);
            &&& r.len() == 0 ==> parts.len() == 1 && parts[0].len() == 0
            &&& r.len() > 0 ==> (r[0] == c || (parts[0].len() > 0 && r[0] == parts[0][0]))
            &&& r.len() > 0 ==> (r.last() == c || (parts.last().len() > 0 && r.last() == parts.last().last()))
            &&& forall|k: int|
                0 <= k < r.len() ==> #[trigger] r[k] == c || exists|i: int|
                    0 <= i < parts.len() && (#[trigger] parts[i]).contains(r[k])
        }),
    decreases parts.len(),
{
    if parts.len() == 1 {
        let r = parts[0];
        assert forall|k: int| 0 <= k < r.len() implies #[trigger] r[k] == c || exists|i: int|
            0 <= i < parts.len() && (#[trigger] parts[i]).contains(r[k]) by {
            assert(parts[0].contains(r[k]));
        }
    } else {
        let before = parts.drop_last();
        lemma_join_ends(before, c);
        let head = join_of(before, seq![c]);
        let last = parts.last();
        let r = head + seq![c] + last;
        let n = head.len() as int;
        assert(r =~= join_of(parts, seq![c]));
        assert(before[0] == parts[0]);
        if n > 0 {
            assert(r[0] == head[0]);
        } else {
            assert(r[0] == c);
        }
        if last.len() > 0 {
            assert(r.last() == last.last());
        } else {
            assert(r.last() == c);
        }
        assert forall|k: int| 0 <= k < r.len() implies #[trigger] r[k] == c || exists|i: int|
            0 <= i < parts.len() && (#[trigger] parts[i]).contains(r[k]) by {
            if k < n {
                assert(r[k] == head[k]);
                if r[k] != c {
                    let i = choose|i: int| 0 <= i < before.len() && (#[trigger] before[i]).contains(head[k]);
                    assert(parts[i].contains(r[k]));
                }
            } else if k > n {
                assert(r[k] == last[k - n - 1]);
                assert(last.contains(r[k]));
                assert(parts[parts.len() - 1].contains(r[k]));
            }
        }
    }
}

proof fn lemma_split_ends(s: Seq<char>, p: Seq<char>, start: int)
    requires
        p.len() > 0,
        0 <= start <= s.len(),
    ensures
        ({
            let parts = split_from(s, p, start);
            &&& parts.len() > 0
            &&& parts[0].len() > 0 ==> start < s.len() && parts[0][0] == s[start]
            &&& parts.last().len() > 0 ==> s.len() > 0 && parts.last().last() == s.last()
            &&& parts.len() == 1 && parts[0].len() == 0 ==> start == s.len()
            &&& forall|i: int, x: char| 0 <= i < parts.len() && #[trigger] parts[i].contains(x) ==> s.contains(x)
        }),
    decreases s.len() - start,
{
    lemma_find_from(s, p, start);
    let parts = split_from(s, p, start);
    match find_from(s, p, start) {
        Some(n) => {
            lemma_split_ends(s, p, n + p.len());
            let rest = split_from(s, p, n + p.len());
            assert(parts =~= seq![s.subrange(start, n)] + rest);
            assert(parts.last() == rest.last());
            assert forall|i: int, x: char| 0 <= i < parts.len() && #[trigger] parts[i].contains(x) implies s.contains(x) by {
                if i == 0 {
                    let k = choose|k: int| 0 <= k < parts[0].len() && parts[0][k] == x;
                    assert(s[start + k] == x);
                } else {
                    assert(parts[i] == rest[i - 1]);
                }
            }
        },
        None => {
            let one = s.subrange(start, s.len() as int);
            assert(parts =~= seq![one]);
            assert forall|i: int, x: char| 0 <= i < parts.len() && #[trigger] parts[i].contains(x) implies s.contains(x) by {
                let k = choose|k: int| 0 <= k < one.len() && one[k] == x;
                assert(s[start + k] == x);
            }
        },
    }
}

/// Whether a text has no white space at its ends.
pub open spec fn has_solid_ends(s: Seq<char>) -> bool {
    s.len() > 0 ==> !is_space(s[0]) && !is_space(s.last())
}

/// Replacing a text by a character that is no white space keeps the ends of a
/// text, and adds no other character.
pub proof fn lemma_replaced_ends(s: Seq<char>, p: Seq<char>, c: char)
    requires
        p.len() > 0,
        has_solid_ends(s),
        !is_space(c),
    ensures
        has_solid_ends(replace_of(s, p, seq![c])),
        forall|k: int|
            0 <= k < replace_of(s, p, seq![c]).len() ==> #[trigger] replace_of(s, p, seq![c])[k] == c || s.contains(
                replace_of(s, p, seq![c])[k],
            ),
{
    let parts = split_of(s, p);
    let r = replace_of(s, p, seq![c]);
    lemma_split_ends(s, p, 0);
    lemma_join_ends(parts, c);
    assert forall|k: int| 0 <= k < r.len() implies #[trigger] r[k] == c || s.contains(r[k]) by {
        if r[k] != c {
            let i = choose|i: int| 0 <= i < parts.len() && (#[trigger] parts[i]).contains(r[k]);
            assert(parts[i].contains(r[k]));
        }
    }
}

/// A text that is trimmed already has no white space at its ends.
pub proof fn lemma_trim_ends(s: Seq<char>)
    ensures
        has_solid_ends(trim_of(s)),
{
    let a = trim_start_of(s);
    lemma_trim_start(s);
    lemma_trim_end(a);
    lemma_trim_len(a);
}

} // verus!
