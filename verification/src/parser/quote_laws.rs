//! What putting attribute values in quotes does to a selector.

use crate::parser::html::{equals_from, quote_pass, quote_step, quoted_attribute, quoted_selector, QuotePass};
use crate::util::chars::{is_space, space_end, word_end};
use vstd::prelude::*;

verus! {

/// A text without its double quotes.
pub open spec fn unquoted(s: Seq<char>) -> Seq<char> {
    s.filter(|c: char| c != '"')
}

proof fn lemma_unquoted_add(a: Seq<char>, b: Seq<char>)
    ensures
        unquoted(a + b) == unquoted(a) + unquoted(b),
{
    Seq::filter_distributes_over_add(a, b, |c: char| c != '"');
}

proof fn lemma_unquoted_mark()
    ensures
        unquoted(seq!['"']) == Seq::<char>::empty(),
{
    reveal(Seq::filter);
    let one = seq!['"'];
    let none = Seq::<char>::empty();
    let keep = |c: char| c != '"';
    assert(none.filter(keep) =~= none);
    assert(one.drop_last() =~= none);
    assert(one.last() == '"');
    assert(one.filter(keep) == one.drop_last().filter(keep));
}

proof fn lemma_ends(s: Seq<char>, i: int)
    requires
        0 <= i <= s.len(),
    ensures
        i <= space_end(s, i) <= s.len(),
        i <= word_end(s, i) <= s.len(),
        forall|k: int| i <= k < space_end(s, i) ==> is_space(#[trigger] s[k]),
        forall|k: int| i <= k < word_end(s, i) ==> !is_space(#[trigger] s[k]),
        space_end(s, i) < s.len() ==> !is_space(s[space_end(s, i)]),
        word_end(s, i) < s.len() ==> is_space(s[word_end(s, i)]),
    decreases s.len() - i,
{
    if i < s.len() {
        lemma_ends(s, i + 1);
    }
}

proof fn lemma_equals(s: Seq<char>, i: int, quote: Option<char>, escaped: bool)
    requires
        0 <= i,
    ensures
        equals_from(s, i, quote, escaped) matches Some(e) ==> i <= e < s.len() && s[e] == '=',
    decreases s.len() - i,
{
    if i < s.len() {
        lemma_equals(s, i + 1, quote, escaped);
        lemma_equals(s, i + 1, quote, true);
        lemma_equals(s, i + 1, quote, false);
        lemma_equals(s, i + 1, None, escaped);
        lemma_equals(s, i + 1, Some(s[i]), escaped);
    }
}

proof fn lemma_quoted_attribute(s: Seq<char>)
    ensures
        quoted_attribute(s) matches Some(t) ==> unquoted(t) == unquoted(s) && t.len() == s.len() + 2,
{
    lemma_equals(s, 0, None, false);
    if let Some(e) = equals_from(s, 0, None, false) {
        lemma_ends(s, e + 1);
        let a = space_end(s, e + 1);
        lemma_ends(s, a);
        let b = word_end(s, a);
        let x = s.subrange(0, a);
        let v = s.subrange(a, b);
        let y = s.subrange(b, s.len() as int);
        lemma_unquoted_mark();
        lemma_unquoted_add(x, seq!['"']);
        lemma_unquoted_add(x + seq!['"'], v);
        lemma_unquoted_add(x + seq!['"'] + v, seq!['"']);
        lemma_unquoted_add(x + seq!['"'] + v + seq!['"'], y);
        lemma_unquoted_add(x, v);
        lemma_unquoted_add(x + v, y);
        assert(s =~= x + v + y);
        assert(unquoted(x) + Seq::<char>::empty() =~= unquoted(x));
        assert(unquoted(x) + unquoted(v) + Seq::<char>::empty() =~= unquoted(x) + unquoted(v));
    }
}

proof fn lemma_pass(s: Seq<char>, n: int)
    requires
        0 <= n <= s.len(),
    ensures
        ({
            let p = quote_pass(s, n);
            &&& 0 <= p.copied <= n
            &&& p.bracket matches Some(b) ==> p.copied <= b < n
            &&& unquoted(p.out) == unquoted(s.subrange(0, p.copied))
            &&& p.out.len() >= p.copied
            &&& p.changed ==> p.out.len() >= p.copied + 2
        }),
    decreases n,
{
    if n <= 0 {
        assert(s.subrange(0, 0) =~= Seq::empty());
    } else {
        lemma_pass(s, n - 1);
        let p = quote_pass(s, n - 1);
        let q = quote_pass(s, n);
        if q.copied != p.copied {
            let start = p.bracket->0;
            let inner = s.subrange(start + 1, n - 1);
            let a = quoted_attribute(inner)->0;
            let gap = s.subrange(p.copied, start + 1);
            lemma_quoted_attribute(inner);
            lemma_unquoted_add(p.out, gap);
            lemma_unquoted_add(p.out + gap, a);
            lemma_unquoted_add(p.out + gap + a, seq![']']);
            let h = s.subrange(0, p.copied);
            lemma_unquoted_add(h, gap);
            lemma_unquoted_add(h + gap, inner);
            lemma_unquoted_add(h + gap + inner, seq![']']);
            assert(s.subrange(0, n) =~= h + gap + inner + seq![']']);
        }
    }
}

/// Putting values in quotes adds double quotes, a pair at least, and nothing else.
pub proof fn law_only_quotes_are_added(s: Seq<char>)
    ensures
        quoted_selector(s) matches Some(t) ==> unquoted(t) == unquoted(s) && t.len() >= s.len() + 2,
{
    let n = s.len() as int;
    lemma_pass(s, n);
    let p = quote_pass(s, n);
    let rest = s.subrange(p.copied, n);
    lemma_unquoted_add(p.out, rest);
    lemma_unquoted_add(s.subrange(0, p.copied), rest);
    assert(s =~= s.subrange(0, p.copied) + rest);
}

/// Whether a bracket closes at position `n` around an attribute test whose value
/// is put in quotes.
pub open spec fn turns_at(s: Seq<char>, n: int) -> bool {
    let p = quote_pass(s, n);
    &&& 0 <= n < s.len()
    &&& s[n] == ']'
    &&& p.quote is None
    &&& !p.escaped
    &&& p.bracket is Some
    &&& quoted_attribute(s.subrange(p.bracket->0 + 1, n)) is Some
}

/// The open quote and the escape after some characters.
pub open spec fn scanned(quote: Option<char>, escaped: bool, x: Seq<char>, n: int) -> (Option<char>, bool)
    decreases n,
{
    if n <= 0 {
        (quote, escaped)
    } else {
        let p = scanned(quote, escaped, x, n - 1);
        let c = x[n - 1];
        if p.1 {
            (p.0, false)
        } else if c == '\\' {
            (p.0, true)
        } else if p.0 is Some {
            if c == p.0->0 {
                (None, false)
            } else {
                p
            }
        } else if c == '\'' || c == '"' {
            (Some(c), false)
        } else {
            p
        }
    }
}

/// Where the value of an attribute test starts.
pub open spec fn value_start(inner: Seq<char>) -> int {
    space_end(inner, equals_from(inner, 0, None, false)->0 + 1)
}

/// The value of an attribute test.
pub open spec fn value_of(inner: Seq<char>) -> Seq<char> {
    inner.subrange(value_start(inner), word_end(inner, value_start(inner)))
}

/// What stands after the value of an attribute test.
pub open spec fn after_value(inner: Seq<char>) -> Seq<char> {
    inner.subrange(word_end(inner, value_start(inner)), inner.len() as int)
}

/// What follows the first closing bracket of a text.
pub open spec fn after_close(v: Seq<char>) -> Seq<char>
    decreases v.len(),
{
    if v.len() == 0 {
        v
    } else if v[0] == ']' {
        v.skip(1)
    } else {
        after_close(v.skip(1))
    }
}

/// What quotes around a value leave outside of the brackets. A value that stands
/// in double quotes already, behind an escaped one, is set free by them, and a
/// closing bracket in it ends the attribute test.
pub open spec fn set_free(inner: Seq<char>) -> Seq<char> {
    if scanned(None, false, inner, value_start(inner)).0 == Some('"') && value_of(inner).contains(']') {
        after_close(value_of(inner)) + seq!['"'] + after_value(inner) + seq![']']
    } else {
        seq![]
    }
}

/// Whether quotes around the value of the attribute test that ends at position
/// `n` set a further one free that needs quotes.
pub open spec fn frees_at(s: Seq<char>, n: int) -> bool {
    turns_at(s, n) && quoted_selector(set_free(s.subrange(quote_pass(s, n).bracket->0 + 1, n))) is Some
}

/// Whether quotes set an attribute test free, before position `n`, that needs
/// quotes itself.
pub open spec fn frees_more(s: Seq<char>, n: int) -> bool {
    exists|m: int| m < n && #[trigger] frees_at(s, m)
}

proof fn lemma_same_start(s: Seq<char>, t: Seq<char>, n: int)
    requires
        0 <= n <= s.len(),
        n <= t.len(),
        s.subrange(0, n) == t.subrange(0, n),
    ensures
        quote_pass(s, n) == quote_pass(t, n),
    decreases n,
{
    if n > 0 {
        assert(s.subrange(0, n - 1) =~= s.subrange(0, n).subrange(0, n - 1));
        assert(t.subrange(0, n - 1) =~= t.subrange(0, n).subrange(0, n - 1));
        lemma_same_start(s, t, n - 1);
        let p = quote_pass(s, n - 1);
        lemma_pass(s, n - 1);
        assert(s[n - 1] == s.subrange(0, n)[n - 1]);
        assert(t[n - 1] == t.subrange(0, n)[n - 1]);
        if p.bracket is Some {
            let b = p.bracket->0;
            assert(s.subrange(b + 1, n - 1) =~= s.subrange(0, n).subrange(b + 1, n - 1));
            assert(t.subrange(b + 1, n - 1) =~= t.subrange(0, n).subrange(b + 1, n - 1));
            assert(s.subrange(p.copied, b + 1) =~= s.subrange(0, n).subrange(p.copied, b + 1));
            assert(t.subrange(p.copied, b + 1) =~= t.subrange(0, n).subrange(p.copied, b + 1));
        }
    }
}

/// Whether no character of `x` closes a bracket.
spec fn never_closes(quote: Option<char>, escaped: bool, x: Seq<char>) -> bool {
    forall|k: int| 0 <= k < x.len() && #[trigger] x[k] == ']' ==> scanned(quote, escaped, x, k) != (None::<char>, false)
}

proof fn lemma_run_on(t: Seq<char>, x: Seq<char>, k: int)
    requires
        0 <= k <= x.len(),
        quote_pass(t, t.len() as int).bracket is Some,
        never_closes(quote_pass(t, t.len() as int).quote, quote_pass(t, t.len() as int).escaped, x),
    ensures
        ({
            let p = quote_pass(t, t.len() as int);
            let q = quote_pass(t + x, t.len() + k);
            let z = scanned(p.quote, p.escaped, x, k);
            q == (QuotePass { quote: z.0, escaped: z.1, ..p })
        }),
    decreases k,
{
    let u = t + x;
    let n = t.len() as int;
    assert(u.subrange(0, n) =~= t.subrange(0, n));
    lemma_same_start(t, u, n);
    if k > 0 {
        lemma_run_on(t, x, k - 1);
        assert(u[n + k - 1] == x[k - 1]);
    }
}

proof fn lemma_scanned_add(quote: Option<char>, escaped: bool, x: Seq<char>, y: Seq<char>, k: int)
    requires
        0 <= k <= y.len(),
    ensures
        scanned(quote, escaped, x + y, x.len() + k) == ({
            let p = scanned(quote, escaped, x, x.len() as int);
            scanned(p.0, p.1, y, k)
        }),
    decreases k,
{
    if k > 0 {
        lemma_scanned_add(quote, escaped, x, y, k - 1);
        assert((x + y)[x.len() + k - 1] == y[k - 1]);
    } else {
        lemma_scanned_same(quote, escaped, x, x + y, x.len() as int);
    }
}

proof fn lemma_scanned_same(quote: Option<char>, escaped: bool, x: Seq<char>, y: Seq<char>, k: int)
    requires
        0 <= k <= x.len(),
        k <= y.len(),
        forall|i: int| 0 <= i < k ==> x[i] == y[i],
    ensures
        scanned(quote, escaped, x, k) == scanned(quote, escaped, y, k),
    decreases k,
{
    if k > 0 {
        lemma_scanned_same(quote, escaped, x, y, k - 1);
    }
}

proof fn lemma_plain_scan(quote: Option<char>, x: Seq<char>, k: int)
    requires
        0 <= k <= x.len(),
        forall|i: int| 0 <= i < k ==> #[trigger] x[i] != '\\' && x[i] != '\'' && x[i] != '"',
        quote is Some ==> quote->0 == '\'' || quote->0 == '"',
    ensures
        scanned(quote, false, x, k) == (quote, false),
    decreases k,
{
    if k > 0 {
        lemma_plain_scan(quote, x, k - 1);
    }
}

proof fn lemma_since_bracket(s: Seq<char>, n: int)
    requires
        0 <= n <= s.len(),
        quote_pass(s, n).bracket is Some,
    ensures
        ({
            let p = quote_pass(s, n);
            let b = p.bracket->0;
            let x = s.subrange(b + 1, n);
            let q = quote_pass(s, b + 1);
            &&& 0 <= b < n
            &&& q == (QuotePass { quote: None, escaped: false, ..p })
            &&& (p.quote, p.escaped) == scanned(None, false, x, x.len() as int)
            &&& never_closes(None, false, x)
        }),
    decreases n,
{
    lemma_pass(s, n);
    let p = quote_pass(s, n - 1);
    let b = quote_pass(s, n).bracket->0;
    let x = s.subrange(b + 1, n);
    if p.bracket is Some {
        lemma_since_bracket(s, n - 1);
        let y = s.subrange(b + 1, n - 1);
        assert(p.bracket->0 == b);
        lemma_scanned_same(None, false, y, x, y.len() as int);
        assert(x[y.len() as int] == s[n - 1]);
        assert forall|k: int| 0 <= k < x.len() && #[trigger] x[k] == ']' implies scanned(None, false, x, k) != (
            None::<char>,
            false,
        ) by {
            if k < y.len() {
                assert(y[k] == x[k]);
                lemma_scanned_same(None, false, y, x, k);
            }
        }
    } else {
        assert(b == n - 1);
        assert(x =~= Seq::empty());
    }
}

proof fn lemma_quote_of(s: Seq<char>, n: int)
    requires
        0 <= n <= s.len(),
    ensures
        (quote_pass(s, n).quote, quote_pass(s, n).escaped) == scanned(None, false, s, n),
    decreases n,
{
    if n > 0 {
        lemma_quote_of(s, n - 1);
    }
}

proof fn lemma_quote_kind(x: Seq<char>, n: int)
    requires
        0 <= n <= x.len(),
    ensures
        scanned(None, false, x, n).0 matches Some(c) ==> c == '\'' || c == '"',
    decreases n,
{
    if n > 0 {
        lemma_quote_kind(x, n - 1);
    }
}

proof fn lemma_blank_scan(inner: Seq<char>, e: int, i: int)
    requires
        0 <= e < i <= inner.len(),
        inner[e] == '=',
        forall|k: int| e < k < i ==> is_space(#[trigger] inner[k]),
    ensures
        !scanned(None, false, inner, i).1,
    decreases i - e,
{
    lemma_quote_kind(inner, i - 1);
    if i > e + 1 {
        lemma_blank_scan(inner, e, i - 1);
        assert(is_space(inner[i - 1]));
    }
}

/// The parts of an attribute test whose value is put in quotes.
proof fn lemma_parts(inner: Seq<char>, a: Seq<char>)
    requires
        quoted_attribute(inner) == Some(a),
    ensures
        ({
            let i = value_start(inner);
            let x = inner.subrange(0, i);
            let v = value_of(inner);
            let y = after_value(inner);
            &&& 0 < i <= i + v.len() <= inner.len()
            &&& inner == x + v + y
            &&& a == x + seq!['"'] + v + seq!['"'] + y
            &&& forall|k: int| 0 <= k < v.len() ==> #[trigger] v[k] != '\\' && v[k] != '\'' && v[k] != '"'
            &&& !scanned(None, false, x, x.len() as int).1
            &&& scanned(None, false, x, x.len() as int) == scanned(None, false, inner, i)
        }),
{
    lemma_equals(inner, 0, None, false);
    let e = equals_from(inner, 0, None, false)->0;
    lemma_ends(inner, e + 1);
    let i = value_start(inner);
    lemma_ends(inner, i);
    let x = inner.subrange(0, i);
    let v = value_of(inner);
    assert(inner =~= x + v + after_value(inner));
    assert forall|k: int| 0 <= k < v.len() implies #[trigger] v[k] != '\\' && v[k] != '\'' && v[k] != '"' by {
        assert(v.contains(v[k]));
    }
    lemma_scanned_same(None, false, inner, x, i);
    lemma_blank_scan(inner, e, i);
}

/// The open quote after one more double quote.
spec fn turned(q: Option<char>) -> Option<char> {
    match q {
        None => Some('"'),
        Some(c) => if c == '"' {
            None
        } else {
            Some(c)
        },
    }
}

proof fn lemma_closed_value(inner: Seq<char>, a: Seq<char>)
    requires
        quoted_attribute(inner) == Some(a),
        never_closes(None, false, inner),
        scanned(None, false, inner, inner.len() as int) == (None::<char>, false),
        scanned(None, false, inner, value_start(inner)).0 == Some('"') ==> !value_of(inner).contains(']'),
    ensures
        never_closes(None, false, a),
        scanned(None, false, a, a.len() as int) == (None::<char>, false),
        quoted_attribute(a) is None,
{
    lemma_parts(inner, a);
    let i = value_start(inner);
    let x = inner.subrange(0, i);
    let v = value_of(inner);
    let y = after_value(inner);
    let m = seq!['"'];
    let q = scanned(None, false, inner, i).0;
    let z = turned(q);
    lemma_quote_kind(inner, i);
    lemma_scanned_add(None, false, x, m, 1);
    assert(scanned(q, false, m, 0) == (q, false));
    assert(scanned(q, false, m, 1) == (z, false));
    let xm = x + m;
    assert(scanned(None, false, xm, xm.len() as int) == (z, false));
    assert forall|k: int| 0 <= k <= v.len() implies #[trigger] scanned(z, false, v, k) == (z, false) by {
        lemma_plain_scan(z, v, k);
    }
    let xmv = xm + v;
    lemma_scanned_add(None, false, xm, v, v.len() as int);
    assert(scanned(z, false, v, v.len() as int) == (z, false));
    lemma_scanned_add(None, false, xmv, m, 1);
    assert(scanned(z, false, m, 0) == (z, false));
    assert(scanned(z, false, m, 1) == (q, false));
    let head = xmv + m;
    assert(scanned(None, false, head, head.len() as int) == (q, false));
    let xv = x + v;
    lemma_plain_scan(q, v, v.len() as int);
    lemma_scanned_add(None, false, x, v, v.len() as int);
    assert forall|k: int| 0 <= k <= y.len() implies #[trigger] scanned(None, false, a, head.len() + k) == scanned(
        None,
        false,
        inner,
        xv.len() + k,
    ) by {
        lemma_scanned_add(None, false, head, y, k);
        lemma_scanned_add(None, false, xv, y, k);
    }
    let last = y.len() as int;
    assert(scanned(None, false, a, head.len() + last) == scanned(None, false, inner, xv.len() + last));
    assert forall|k: int| 0 <= k < a.len() && #[trigger] a[k] == ']' implies scanned(None, false, a, k) != (
        None::<char>,
        false,
    ) by {
        if k < i {
            assert(inner[k] == a[k]);
            lemma_scanned_same(None, false, inner, a, k);
        } else if k < head.len() {
            assert(k > i && k < head.len() - 1);
            assert(a[k] == v[k - i - 1]);
            lemma_scanned_same(None, false, xmv, a, k);
            lemma_scanned_add(None, false, xm, v, k - i - 1);
            assert(scanned(z, false, v, k - i - 1) == (z, false));
            if z is None {
                assert(v.contains(v[k - i - 1]));
            }
        } else {
            let r = k - head.len();
            assert(a[k] == y[r]);
            assert(inner[xv.len() + r] == y[r]);
            assert(scanned(None, false, a, head.len() + r) == scanned(None, false, inner, xv.len() + r));
        }
    }
    assert(a.subrange(0, i) =~= inner.subrange(0, i));
    lemma_quotes_stay(inner, a);
}

proof fn lemma_equals_same(s: Seq<char>, t: Seq<char>, k: int, quote: Option<char>, escaped: bool, e: int)
    requires
        0 <= k <= e,
        e < s.len(),
        e < t.len(),
        forall|i: int| 0 <= i <= e ==> s[i] == t[i],
        equals_from(s, k, quote, escaped) == Some(e),
    ensures
        equals_from(t, k, quote, escaped) == Some(e),
    decreases e - k,
{
    assert(s[k] == t[k]);
    let q = match quote {
        Some(c) => if !escaped && s[k] != '\\' && s[k] == c {
            None
        } else {
            quote
        },
        None => if s[k] == '\'' || s[k] == '"' {
            Some(s[k])
        } else {
            None
        },
    };
    let x = match quote {
        Some(_) => if escaped {
            false
        } else if s[k] == '\\' {
            true
        } else {
            escaped
        },
        None => escaped,
    };
    if quote is Some || s[k] != '=' {
        lemma_equals(s, k + 1, q, x);
        assert(equals_from(s, k, quote, escaped) == equals_from(s, k + 1, q, x));
        lemma_equals_same(s, t, k + 1, q, x, e);
    }
}

/// A value that starts with a quote is not put in quotes.
proof fn lemma_quotes_stay(inner: Seq<char>, t: Seq<char>)
    requires
        equals_from(inner, 0, None, false) is Some,
        0 < value_start(inner) <= inner.len(),
        value_start(inner) < t.len(),
        t.subrange(0, value_start(inner)) == inner.subrange(0, value_start(inner)),
        t[value_start(inner)] == '"',
    ensures
        quoted_attribute(t) is None,
{
    let i = value_start(inner);
    lemma_equals(inner, 0, None, false);
    let e = equals_from(inner, 0, None, false)->0;
    lemma_ends(inner, e + 1);
    assert forall|k: int| 0 <= k < i implies inner[k] == t[k] by {
        assert(t.subrange(0, i)[k] == inner.subrange(0, i)[k]);
    }
    lemma_equals_same(inner, t, 0, None, false, e);
    assert forall|k: int| e < k < i implies is_space(#[trigger] t[k]) by {
        assert(t[k] == inner[k]);
    }
    assert(!is_space('"'));
    lemma_space_run(t, e + 1, i);
    lemma_ends(t, i);
    let z = word_end(t, i);
    assert(z > i);
    let value = t.subrange(i, z);
    assert(value[0] == '"');
    assert(value.contains('"'));
}

proof fn lemma_space_run(s: Seq<char>, i: int, a: int)
    requires
        0 <= i <= a < s.len(),
        forall|k: int| i <= k < a ==> is_space(#[trigger] s[k]),
        !is_space(s[a]),
    ensures
        space_end(s, i) == a,
    decreases a - i,
{
    if i < a {
        assert(is_space(s[i]));
        lemma_space_run(s, i + 1, a);
    }
}

/// What has been written of a selector after the first `n` characters.
spec fn written(s: Seq<char>, n: int) -> Seq<char> {
    quote_pass(s, n).out + s.subrange(quote_pass(s, n).copied, n)
}

/// Whether a second pass over what has been written stands where the first one
/// does, and has changed something only where quotes set something free.
spec fn keeps_up(s: Seq<char>, n: int) -> bool {
    let p = quote_pass(s, n);
    let t = written(s, n);
    let q = quote_pass(t, t.len() as int);
    &&& q.changed == frees_more(s, n)
    &&& q.quote == p.quote
    &&& q.escaped == p.escaped
    &&& q.bracket is Some == p.bracket is Some
    &&& p.bracket is Some ==> q.bracket->0 == t.len() - (n - p.bracket->0)
}

proof fn lemma_no_turn_since(s: Seq<char>, n: int, m: int)
    requires
        0 <= n <= s.len(),
        quote_pass(s, n).bracket is Some,
        quote_pass(s, n).bracket->0 < m < n,
    ensures
        !turns_at(s, m),
{
    lemma_since_bracket(s, n);
    let b = quote_pass(s, n).bracket->0;
    let x = s.subrange(b + 1, n);
    let h = s.subrange(0, b + 1);
    assert(h.subrange(0, b + 1) =~= s.subrange(0, b + 1));
    lemma_same_start(s, h, b + 1);
    lemma_run_on(h, x, m - b - 1);
    let hx = h + x;
    assert(hx.subrange(0, m) =~= s.subrange(0, m));
    lemma_same_start(s, hx, m);
    assert(x[m - b - 1] == s[m]);
}

proof fn lemma_turned(s: Seq<char>, n: int)
    requires
        0 <= n < s.len(),
        turns_at(s, n),
        set_free(s.subrange(quote_pass(s, n).bracket->0 + 1, n)).len() == 0,
        keeps_up(s, quote_pass(s, n).bracket->0 + 1),
    ensures
        keeps_up(s, n + 1),
{
    let p = quote_pass(s, n);
    let b = p.bracket->0;
    let inner = s.subrange(b + 1, n);
    let a = quoted_attribute(inner)->0;
    let t = written(s, n + 1);
    lemma_pass(s, n);
    lemma_since_bracket(s, n);
    lemma_closed_value(inner, a);
    let h = written(s, b + 1);
    assert(h =~= p.out + s.subrange(p.copied, b + 1));
    assert(t =~= h + a + seq![']']);
    lemma_close(h, a);
    lemma_nothing_freed(s, n);
}

proof fn lemma_nothing_quoted(none: Seq<char>)
    requires
        none.len() == 0,
    ensures
        quoted_selector(none) is None,
{
}

proof fn lemma_nothing_freed(s: Seq<char>, n: int)
    requires
        0 <= n < s.len(),
        turns_at(s, n),
    ensures
        frees_more(s, n + 1) == (frees_more(s, quote_pass(s, n).bracket->0 + 1) || frees_at(s, n)),
        set_free(s.subrange(quote_pass(s, n).bracket->0 + 1, n)).len() == 0 ==> !frees_at(s, n),
{
    let b = quote_pass(s, n).bracket->0;
    lemma_since_bracket(s, n);
    assert forall|m: int| b < m < n implies !turns_at(s, m) by {
        lemma_no_turn_since(s, n, m);
    }
    if frees_more(s, n + 1) && !frees_at(s, n) {
        let m = choose|m: int| m < n + 1 && #[trigger] frees_at(s, m);
        assert(turns_at(s, m));
        assert(m < b + 1);
    }
    lemma_nothing_quoted(seq![]);
    if set_free(s.subrange(b + 1, n)).len() == 0 {
        lemma_nothing_quoted(set_free(s.subrange(b + 1, n)));
    }
}

/// A pass that goes on with nothing open does what one does that starts there.
proof fn lemma_go_on(h: Seq<char>, x: Seq<char>, k: int)
    requires
        0 <= k <= x.len(),
        quote_pass(h, h.len() as int).quote is None,
        !quote_pass(h, h.len() as int).escaped,
        quote_pass(h, h.len() as int).bracket is None,
    ensures
        ({
            let g = quote_pass(h, h.len() as int);
            let p = quote_pass(x, k);
            let q = quote_pass(h + x, h.len() + k);
            &&& q.quote == p.quote
            &&& q.escaped == p.escaped
            &&& q.bracket is Some == p.bracket is Some
            &&& p.bracket is Some ==> q.bracket->0 == h.len() + p.bracket->0
            &&& q.changed == (g.changed || p.changed)
        }),
    decreases k,
{
    let u = h + x;
    let n = h.len() as int;
    if k == 0 {
        assert(u.subrange(0, n) =~= h.subrange(0, n));
        lemma_same_start(h, u, n);
    } else {
        lemma_go_on(h, x, k - 1);
        lemma_pass(x, k - 1);
        assert(u[n + k - 1] == x[k - 1]);
        let p = quote_pass(x, k - 1);
        if p.bracket is Some {
            let b = p.bracket->0;
            assert(u.subrange(n + b + 1, n + k - 1) =~= x.subrange(b + 1, k - 1));
        }
    }
}

proof fn lemma_first_close(v: Seq<char>) -> (c: int)
    requires
        v.contains(']'),
    ensures
        0 <= c < v.len(),
        v[c] == ']',
        forall|k: int| 0 <= k < c ==> v[k] != ']',
        after_close(v) == v.subrange(c + 1, v.len() as int),
    decreases v.len(),
{
    if v[0] == ']' {
        assert(v.skip(1) =~= v.subrange(1, v.len() as int));
        0
    } else {
        let w = v.skip(1);
        let k = choose|k: int| 0 <= k < v.len() && v[k] == ']';
        assert(w[k - 1] == ']');
        let c = lemma_first_close(w);
        assert(forall|k: int| 1 <= k < v.len() ==> w[k - 1] == v[k]);
        assert(w.subrange(c + 1, w.len() as int) =~= v.subrange(c + 2, v.len() as int));
        assert forall|k: int| 0 <= k < c + 1 implies v[k] != ']' by {
            if k > 0 {
                assert(w[k - 1] == v[k]);
            }
        }
        c + 1
    }
}

/// An attribute test with a quote before its value, up to the first closing
/// bracket of the value.
spec fn cut_short(inner: Seq<char>) -> Seq<char> {
    let v = value_of(inner);
    inner.subrange(0, value_start(inner)) + seq!['"'] + v.subrange(0, v.len() - after_close(v).len() - 1)
}

proof fn lemma_cut_short(inner: Seq<char>, a: Seq<char>)
    requires
        quoted_attribute(inner) == Some(a),
        never_closes(None, false, inner),
        set_free(inner).len() > 0,
    ensures
        never_closes(None, false, cut_short(inner)),
        scanned(None, false, cut_short(inner), cut_short(inner).len() as int) == (None::<char>, false),
        quoted_attribute(cut_short(inner)) is None,
        a + seq![']'] == cut_short(inner) + seq![']'] + set_free(inner),
{
    lemma_parts(inner, a);
    let i = value_start(inner);
    let x = inner.subrange(0, i);
    let v = value_of(inner);
    let y = after_value(inner);
    let m = seq!['"'];
    let q = Some('"');
    let c = lemma_first_close(v);
    let v1 = v.subrange(0, c);
    let xm = x + m;
    let a1 = xm + v1;
    assert(a1 == cut_short(inner));
    lemma_scanned_add(None, false, x, m, 1);
    assert(scanned(q, false, m, 0) == (q, false));
    assert(scanned(q, false, m, 1) == (None::<char>, false));
    assert forall|k: int| 0 <= k <= v1.len() implies #[trigger] scanned(None, false, v1, k) == (None::<char>, false) by {
        assert forall|r: int| 0 <= r < k implies #[trigger] v1[r] != '\\' && v1[r] != '\'' && v1[r] != '"' by {
            assert(v1[r] == v[r]);
        }
        lemma_plain_scan(None, v1, k);
    }
    lemma_scanned_add(None, false, xm, v1, v1.len() as int);
    assert(scanned(None, false, v1, v1.len() as int) == (None::<char>, false));
    assert forall|k: int| 0 <= k < a1.len() && #[trigger] a1[k] == ']' implies scanned(None, false, a1, k) != (
        None::<char>,
        false,
    ) by {
        if k < i {
            assert(inner[k] == a1[k]);
            lemma_scanned_same(None, false, inner, a1, k);
        } else {
            assert(k > i);
            assert(a1[k] == v1[k - i - 1]);
            assert(v1[k - i - 1] == v[k - i - 1]);
        }
    }
    assert(a1.subrange(0, i) =~= inner.subrange(0, i));
    lemma_quotes_stay(inner, a1);
    assert(v =~= v1 + seq![']'] + after_close(v));
    assert(a + seq![']'] =~= a1 + seq![']'] + set_free(inner));
}

/// A pass that comes to a closing bracket without a value that needs quotes.
proof fn lemma_close(h: Seq<char>, a: Seq<char>)
    requires
        ({
            let g = quote_pass(h, h.len() as int);
            g.bracket == Some(h.len() - 1) && g.quote is None && !g.escaped
        }),
        never_closes(None, false, a),
        scanned(None, false, a, a.len() as int) == (None::<char>, false),
        quoted_attribute(a) is None,
    ensures
        ({
            let t = h + a + seq![']'];
            quote_pass(t, t.len() as int) == (QuotePass { bracket: None, ..quote_pass(h, h.len() as int) })
        }),
{
    let g = quote_pass(h, h.len() as int);
    let ha = h + a;
    let t = ha + seq![']'];
    lemma_run_on(h, a, a.len() as int);
    let r = quote_pass(ha, ha.len() as int);
    assert(r == g);
    assert(t.subrange(0, ha.len() as int) =~= ha.subrange(0, ha.len() as int));
    lemma_same_start(t, ha, ha.len() as int);
    assert(t[ha.len() as int] == ']');
    assert(t.subrange(g.bracket->0 + 1, ha.len() as int) =~= a);
    assert(quote_pass(t, t.len() as int) == quote_step(t, r, ha.len() as int));
}

proof fn lemma_freed(s: Seq<char>, n: int)
    requires
        0 <= n < s.len(),
        turns_at(s, n),
        set_free(s.subrange(quote_pass(s, n).bracket->0 + 1, n)).len() > 0,
        keeps_up(s, quote_pass(s, n).bracket->0 + 1),
    ensures
        keeps_up(s, n + 1),
{
    let p = quote_pass(s, n);
    let b = p.bracket->0;
    let inner = s.subrange(b + 1, n);
    let a = quoted_attribute(inner)->0;
    let t = written(s, n + 1);
    let tail = set_free(inner);
    lemma_pass(s, n);
    lemma_since_bracket(s, n);
    lemma_cut_short(inner, a);
    let h = written(s, b + 1);
    assert(h =~= p.out + s.subrange(p.copied, b + 1));
    lemma_close(h, cut_short(inner));
    let h1 = h + cut_short(inner) + seq![']'];
    assert(t =~= h + (a + seq![']']));
    assert(t =~= h1 + tail);
    lemma_go_on(h1, tail, tail.len() as int);
    lemma_free_ends(inner, a);
    lemma_last_close(tail);
    lemma_nothing_freed(s, n);
    assert(frees_at(s, n) == quote_pass(tail, tail.len() as int).changed);
}

proof fn lemma_last_close(tail: Seq<char>)
    requires
        tail.len() > 0,
        tail.last() == ']',
        scanned(None, false, tail, tail.len() - 1) == (None::<char>, false),
    ensures
        ({
            let p = quote_pass(tail, tail.len() as int);
            p.quote is None && !p.escaped && p.bracket is None
        }),
{
    let last = tail.len() - 1;
    lemma_quote_of(tail, last);
    assert(quote_pass(tail, tail.len() as int) == quote_step(tail, quote_pass(tail, last), last));
}

proof fn lemma_free_ends(inner: Seq<char>, a: Seq<char>)
    requires
        quoted_attribute(inner) == Some(a),
        set_free(inner).len() > 0,
        scanned(None, false, inner, inner.len() as int) == (None::<char>, false),
    ensures
        scanned(None, false, set_free(inner), set_free(inner).len() - 1) == (None::<char>, false),
{
    lemma_parts(inner, a);
    let i = value_start(inner);
    let x = inner.subrange(0, i);
    let v = value_of(inner);
    let y = after_value(inner);
    let m = seq!['"'];
    let q = Some('"');
    let c = lemma_first_close(v);
    let rest = after_close(v);
    let tail = set_free(inner);
    assert forall|r: int| 0 <= r < rest.len() implies #[trigger] rest[r] != '\\' && rest[r] != '\'' && rest[r] != '"' by {
        assert(rest[r] == v[c + 1 + r]);
    }
    lemma_plain_scan(None, rest, rest.len() as int);
    lemma_scanned_add(None, false, rest, m, 1);
    assert(scanned(None, false, m, 0) == (None::<char>, false));
    assert(scanned(None, false, m, 1) == (q, false));
    let rm = rest + m;
    let rmy = rm + y;
    lemma_scanned_add(None, false, rm, y, y.len() as int);
    let xv = x + v;
    lemma_plain_scan(q, v, v.len() as int);
    lemma_scanned_add(None, false, x, v, v.len() as int);
    lemma_scanned_add(None, false, xv, y, y.len() as int);
    lemma_scanned_same(None, false, rmy, tail, rmy.len() as int);
}

proof fn lemma_copied(s: Seq<char>, n: int)
    requires
        0 <= n < s.len(),
        !turns_at(s, n),
        keeps_up(s, n),
    ensures
        keeps_up(s, n + 1),
{
    let p = quote_pass(s, n);
    let t0 = written(s, n);
    let t = written(s, n + 1);
    let m = t0.len() as int;
    lemma_pass(s, n);
    assert(quote_pass(s, n + 1).out == p.out && quote_pass(s, n + 1).copied == p.copied);
    assert(t =~= t0.push(s[n]));
    assert(t.subrange(0, m) =~= t0.subrange(0, m));
    lemma_same_start(t, t0, m);
    assert(t[m] == s[n]);
    let q = quote_pass(t0, m);
    assert(quote_pass(t, t.len() as int) == quote_step(t, q, m));
    if p.bracket is Some {
        assert(t.subrange(q.bracket->0 + 1, m) =~= s.subrange(p.bracket->0 + 1, n));
    }
    assert(frees_more(s, n + 1) == frees_more(s, n)) by {
        if frees_more(s, n + 1) {
            let k = choose|k: int| k < n + 1 && #[trigger] frees_at(s, k);
            assert(k < n);
        }
    }
}

proof fn lemma_second_pass(s: Seq<char>, n: int)
    requires
        0 <= n <= s.len(),
    ensures
        keeps_up(s, n),
    decreases n,
{
    if n == 0 {
        assert(written(s, 0) =~= Seq::empty());
        assert(!frees_more(s, 0));
    } else if turns_at(s, n - 1) {
        lemma_pass(s, n - 1);
        lemma_second_pass(s, quote_pass(s, n - 1).bracket->0 + 1);
        if set_free(s.subrange(quote_pass(s, n - 1).bracket->0 + 1, n - 1)).len() == 0 {
            lemma_turned(s, n - 1);
        } else {
            lemma_freed(s, n - 1);
        }
    } else {
        lemma_second_pass(s, n - 1);
        lemma_copied(s, n - 1);
    }
}

/// Putting values in quotes leaves none that needs them, unless the quotes set
/// an attribute test free that does.
pub proof fn law_values_are_quoted_once(s: Seq<char>)
    requires
        !frees_more(s, s.len() as int),
    ensures
        quoted_selector(s) matches Some(t) ==> quoted_selector(t) is None,
{
    law_quoted_again(s);
}

/// Values are put in quotes a second time just where the quotes of the first
/// time set an attribute test free that needs them.
pub proof fn law_quoted_again(s: Seq<char>)
    ensures
        quoted_selector(s) matches Some(t) ==> (quoted_selector(t) is Some <==> frees_more(s, s.len() as int)),
{
    lemma_second_pass(s, s.len() as int);
    if let Some(t) = quoted_selector(s) {
        assert(t == written(s, s.len() as int));
    }
}

} // verus!
