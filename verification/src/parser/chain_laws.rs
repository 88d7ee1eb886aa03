//! What holds of chains of selectors, of index lists and of joined rules.

use crate::ext::dom::{css_matches, css_matches_under};
use crate::parser::html::{
    ascending, at_mark, chain_from, chain_marks, chain_of, combination_marks, descending, excluded, index_in, indexed,
    matches_of, matches_under, matches_under_all, positions_of, range_in, selector_of, takes_value, usable_css,
    with_new, BaseV, IndexItem, IndexMode, SelectorV,
};
use crate::parser::rule_analyzer::{
    delimiter_at, first_delimiter_at, next_delimiter, scan_open, scan_start, scan_step, split_delimiter, split_parts,
    split_result,
};
use crate::util::chars::{has_prefix, is_space, lemma_solid_ends, lemma_trim_ends, occurs_at, trim_of};
use vstd::prelude::*;
use vstd::seq_lib::lemma_flatten_concat;
use vstd::string::*;

verus! {

/// What a selector matches from each of some elements.
pub open spec fn each_match(html: Seq<char>, parents: Seq<int>, s: SelectorV) -> Seq<Seq<int>> {
    Seq::new(parents.len(), |i: int| matches_under(html, parents[i], s))
}

proof fn lemma_step(html: Seq<char>, parents: Seq<int>, s: SelectorV, n: int)
    requires
        0 <= n <= parents.len(),
    ensures
        matches_under_all(html, parents, s, n) == each_match(html, parents.take(n), s).flatten(),
    decreases n,
{
    broadcast use Seq::lemma_flatten_push;

    if n > 0 {
        lemma_step(html, parents, s, n - 1);
        assert(each_match(html, parents.take(n), s) =~= each_match(html, parents.take(n - 1), s).push(
            matches_under(html, parents[n - 1], s),
        ));
    } else {
        assert(each_match(html, parents.take(0), s) =~= seq![]);
    }
}

proof fn lemma_in_flat<T>(groups: Seq<Seq<T>>, e: T)
    ensures
        groups.flatten().contains(e) <==> exists|i: int| 0 <= i < groups.len() && (#[trigger] groups[i]).contains(e),
    decreases groups.len(),
{
    if groups.len() > 0 {
        let rest = groups.drop_first();
        lemma_in_flat(rest, e);
        let flat = groups[0] + rest.flatten();
        assert(groups.flatten() == flat);
        if flat.contains(e) {
            let j = choose|j: int| 0 <= j < flat.len() && flat[j] == e;
            if j < groups[0].len() {
                assert(groups[0][j] == e);
            } else {
                assert(rest.flatten()[j - groups[0].len()] == e);
                let i = choose|i: int| 0 <= i < rest.len() && (#[trigger] rest[i]).contains(e);
                assert(groups[i + 1].contains(e));
            }
        }
        if exists|i: int| 0 <= i < groups.len() && (#[trigger] groups[i]).contains(e) {
            let i = choose|i: int| 0 <= i < groups.len() && (#[trigger] groups[i]).contains(e);
            if i == 0 {
                let j = choose|j: int| 0 <= j < groups[0].len() && groups[0][j] == e;
                assert(flat[j] == e);
            } else {
                assert(rest[i - 1].contains(e));
                let j = choose|j: int| 0 <= j < rest.flatten().len() && rest.flatten()[j] == e;
                assert(flat[groups[0].len() + j] == e);
            }
        }
    }
}

/// A step of a chain leads to what its selector matches from every element
/// before it, one after the other: it leaves none out and adds none.
pub proof fn law_step_takes_all(html: Seq<char>, parents: Seq<int>, s: SelectorV)
    ensures
        matches_under_all(html, parents, s, parents.len() as int) == each_match(html, parents, s).flatten(),
        forall|e: int|
            #![trigger matches_under_all(html, parents, s, parents.len() as int).contains(e)]
            matches_under_all(html, parents, s, parents.len() as int).contains(e) <==> exists|i: int|
                0 <= i < parents.len() && matches_under(html, #[trigger] parents[i], s).contains(e),
{
    let all = matches_under_all(html, parents, s, parents.len() as int);
    lemma_step(html, parents, s, parents.len() as int);
    assert(parents.take(parents.len() as int) =~= parents);
    let groups = each_match(html, parents, s);
    assert forall|e: int|
        #![trigger matches_under_all(html, parents, s, parents.len() as int).contains(e)]
        all.contains(e) <==> exists|i: int| 0 <= i < parents.len() && matches_under(html, #[trigger] parents[i], s).contains(
            e,
        ) by {
        lemma_in_flat(groups, e);
        if all.contains(e) {
            let i = choose|i: int| 0 <= i < groups.len() && (#[trigger] groups[i]).contains(e);
            assert(matches_under(html, parents[i], s).contains(e));
        }
        if exists|i: int| 0 <= i < parents.len() && matches_under(html, #[trigger] parents[i], s).contains(e) {
            let i = choose|i: int|
                0 <= i < parents.len() && matches_under(html, #[trigger] parents[i], s).contains(e);
            assert(groups[i].contains(e));
        }
    }
}

/// A step leads to as many elements as its selector matches from all elements
/// before it together: from two lists one after the other it leads to what it
/// leads to from each.
pub proof fn law_step_adds_up(html: Seq<char>, a: Seq<int>, b: Seq<int>, s: SelectorV)
    ensures
        matches_under_all(html, a + b, s, (a + b).len() as int) == matches_under_all(html, a, s, a.len() as int)
            + matches_under_all(html, b, s, b.len() as int),
        forall|p: int| #[trigger] matches_under_all(html, seq![p], s, 1) == matches_under(html, p, s),
{
    law_step_takes_all(html, a + b, s);
    law_step_takes_all(html, a, s);
    law_step_takes_all(html, b, s);
    assert(each_match(html, a + b, s) =~= each_match(html, a, s) + each_match(html, b, s));
    lemma_flatten_concat(each_match(html, a, s), each_match(html, b, s));
    assert forall|p: int| #[trigger] matches_under_all(html, seq![p], s, 1) == matches_under(html, p, s) by {
        assert(matches_under_all(html, seq![p], s, 0) == Seq::<int>::empty());
        assert(Seq::<int>::empty() + matches_under(html, p, s) =~= matches_under(html, p, s));
    }
}

/// A selector without an index list matches what its CSS matches, in a document
/// and from an element.
pub proof fn law_plain_selector(html: Seq<char>, i: int, s: SelectorV, css: Seq<char>, usable: Seq<char>)
    requires
        s.base == BaseV::Css(css),
        !s.explicit_index,
        usable_css(css) == Some(usable),
    ensures
        matches_of(html, s) == css_matches(html, usable),
        matches_under(html, i, s) == css_matches_under(html, i, usable),
{
}

/// An index takes the match of its number, counted from the end where it is
/// negative; one beyond the matches takes none.
pub proof fn law_single_index(matches: Seq<int>, s: SelectorV, k: i32)
    requires
        s.explicit_index,
        s.index_items == seq![IndexItem::Single(k)],
        s.index_mode == IndexMode::Select,
    ensures
        0 <= k < matches.len() ==> indexed(matches, s) == seq![matches[k as int]],
        -matches.len() <= k < 0 ==> indexed(matches, s) == seq![matches[matches.len() + k]],
        k >= matches.len() || k < -matches.len() ==> indexed(matches, s) == Seq::<int>::empty(),
{
    lemma_single(matches.len() as int, s.index_items, k);
}

proof fn lemma_single(len: int, items: Seq<IndexItem>, k: i32)
    requires
        items == seq![IndexItem::Single(k)],
        len >= 0,
    ensures
        positions_of(len, items, 1) == match index_in(k as int, len) {
            Some(p) => seq![p],
            None => seq![],
        },
{
    reveal_with_fuel(positions_of, 2);
    reveal_with_fuel(with_new, 2);
    let none = Seq::<int>::empty();
    assert(forall|p: int| #[trigger] none.push(p) =~= seq![p]);
}

/// An excluding index takes all matches but the one of its number.
pub proof fn law_single_exclusion(matches: Seq<int>, s: SelectorV, k: i32)
    requires
        s.explicit_index,
        s.index_items == seq![IndexItem::Single(k)],
        s.index_mode == IndexMode::Exclude,
    ensures
        0 <= k < matches.len() ==> indexed(matches, s) == matches.remove(k as int),
        -matches.len() <= k < 0 ==> indexed(matches, s) == matches.remove(matches.len() + k),
        k >= matches.len() || k < -matches.len() ==> indexed(matches, s) == matches,
{
    let len = matches.len() as int;
    lemma_single(len, s.index_items, k);
    let positions = positions_of(len, s.index_items, 1);
    lemma_excluded_one(matches, positions, len);
    assert(matches.take(len) =~= matches);
}

proof fn lemma_excluded_one(matches: Seq<int>, positions: Seq<int>, n: int)
    requires
        0 <= n <= matches.len(),
        positions.len() <= 1,
        positions.len() == 1 ==> 0 <= positions[0] < matches.len(),
    ensures
        excluded(matches, positions, n) == if positions.len() == 1 && positions[0] < n {
            matches.take(n).remove(positions[0])
        } else {
            matches.take(n)
        },
    decreases n,
{
    if n > 0 {
        lemma_excluded_one(matches, positions, n - 1);
        assert(positions.contains(n - 1) <==> positions.len() == 1 && positions[0] == n - 1) by {
            if positions.len() == 1 && positions[0] == n - 1 {
                assert(positions.contains(positions[0]));
            }
        }
        if positions.contains(n - 1) {
            assert(matches.take(n).remove(n - 1) =~= matches.take(n - 1));
        } else if positions.len() == 1 && positions[0] < n - 1 {
            assert(matches.take(n).remove(positions[0]) =~= matches.take(n - 1).remove(positions[0]).push(
                matches[n - 1],
            ));
        } else {
            assert(matches.take(n) =~= matches.take(n - 1).push(matches[n - 1]));
        }
    } else {
        assert(matches.take(0) =~= seq![]);
    }
}

proof fn lemma_ascending(current: int, end: int, step: int)
    requires
        step > 0,
    ensures
        ({
            let r = ascending(current, end, step);
            &&& forall|i: int| 0 <= i < r.len() ==> #[trigger] r[i] == current + i * step && r[i] <= end
            &&& current + r.len() * step > end
        }),
    decreases
        if current <= end {
            end - current + 1
        } else {
            0
        },
{
    let r = ascending(current, end, step);
    if current <= end {
        lemma_ascending(current + step, end, step);
        let rest = ascending(current + step, end, step);
        let n = rest.len() as int;
        assert(current + step + n * step == current + (n + 1) * step) by (nonlinear_arith);
        assert(r.len() == n + 1);
        assert forall|i: int| 0 <= i < r.len() implies #[trigger] r[i] == current + i * step && r[i] <= end by {
            if i > 0 {
                assert(r[i] == rest[i - 1]);
                assert(current + step + (i - 1) * step == current + i * step) by (nonlinear_arith);
            } else {
                assert(0 * step == 0) by (nonlinear_arith);
            }
        }
    } else {
        assert(r.len() * step == 0) by (nonlinear_arith)
            requires
                r.len() == 0,
        ;
    }
}

/// A range takes the positions from its start to its end, both included, by its
/// step; without a start it takes them from the first, without an end to the
/// last.
pub proof fn law_range(len: int, start: Option<i32>, end: Option<i32>, step: int)
    requires
        len > 0,
        step > 0,
        start matches Some(a) ==> 0 <= a < len,
        end matches Some(b) ==> 0 <= b < len,
    ensures
        ({
            let a = match start {
                Some(x) => x as int,
                None => 0,
            };
            let b = match end {
                Some(x) => x as int,
                None => len - 1,
            };
            let r = range_in(len, start, end, step);
            a <= b ==> {
                &&& forall|i: int| 0 <= i < r.len() ==> #[trigger] r[i] == a + i * step && r[i] <= b
                &&& a + r.len() * step > b
            }
        }),
{
    let a = match start {
        Some(x) => x as int,
        None => 0,
    };
    let b = match end {
        Some(x) => x as int,
        None => len - 1,
    };
    lemma_ascending(a, b, step);
}

proof fn lemma_descending(current: int, end: int)
    requires
        0 <= end <= current,
    ensures
        descending(current, end, 1) == Seq::new((current - end + 1) as nat, |i: int| current - i),
    decreases current,
{
    if current > end {
        lemma_descending(current - 1, end);
        assert(descending(current, end, 1) =~= Seq::new((current - end + 1) as nat, |i: int| current - i));
    } else {
        assert(descending(current, end, 1) =~= Seq::new((current - end + 1) as nat, |i: int| current - i));
    }
}

/// A range whose start is behind its end takes the positions in between in
/// reverse.
pub proof fn law_reversed_range(len: int, start: i32, end: i32)
    requires
        0 <= end < start < len,
    ensures
        range_in(len, Some(start), Some(end), 1) == Seq::new((start - end + 1) as nat, |i: int| start - i),
{
    lemma_descending(start as int, end as int);
}

/// A negative bound of a range counts from the end, as an index does.
pub proof fn law_negative_range(len: int, start: i32, end: i32, step: int)
    requires
        0 <= start < len <= i32::MAX,
        0 <= end < len,
    ensures
        range_in(len, Some((start - len) as i32), Some((end - len) as i32), step) == range_in(
            len,
            Some(start),
            Some(end),
            step,
        ),
{
}

/// Whether a character neither quotes, escapes nor brackets.
pub open spec fn is_quiet(c: char) -> bool {
    !(c == '"' || c == '\'' || c == '\\' || c == '[' || c == ']' || c == '(' || c == ')' || c == '{' || c == '}')
}

/// Whether a text is one step of a rule: it is trimmed and holds no marks.
pub open spec fn is_step(s: Seq<char>) -> bool {
    &&& s.len() > 0
    &&& trim_of(s) == s
    &&& forall|i: int|
        0 <= i < s.len() ==> is_quiet(#[trigger] s[i]) && s[i] != '@' && s[i] != '&' && s[i] != '|' && s[i] != '%'
}

/// Whether a text is a chain of steps: it is trimmed and holds no operators.
pub open spec fn is_chain(s: Seq<char>) -> bool {
    &&& s.len() > 0
    &&& trim_of(s) == s
    &&& forall|i: int|
        0 <= i < s.len() ==> is_quiet(#[trigger] s[i]) && s[i] != '&' && s[i] != '|' && s[i] != '%'
}

/// The rule that strings parts together, from part `k` on.
pub open spec fn strung(parts: Seq<Seq<char>>, mark: Seq<char>, k: int) -> Seq<char>
    decreases parts.len() - k,
{
    if k < 0 || k >= parts.len() {
        seq![]
    } else if k == parts.len() - 1 {
        parts[k]
    } else {
        parts[k] + mark + strung(parts, mark, k + 1)
    }
}

proof fn lemma_no_mark(rule: Seq<char>, ds: Seq<Seq<char>>, i: int, k: int)
    requires
        0 <= k,
        0 <= i < rule.len(),
        forall|m: int| 0 <= m < ds.len() ==> (#[trigger] ds[m]).len() > 0 && ds[m][0] != rule[i],
    ensures
        first_delimiter_at(rule, ds, i, k) is None,
    decreases ds.len() - k,
{
    if k < ds.len() {
        let d = ds[k];
        if occurs_at(rule, d, i) {
            assert(rule.subrange(i, i + d.len())[0] == rule[i]);
        }
        lemma_no_mark(rule, ds, i, k + 1);
    }
}

proof fn lemma_skip(rule: Seq<char>, ds: Seq<Seq<char>>, i: int, j: int)
    requires
        0 <= i <= j <= rule.len(),
        forall|m: int| 0 <= m < ds.len() ==> (#[trigger] ds[m]).len() > 0,
        forall|m: int, p: int| 0 <= m < ds.len() && i <= p < j ==> (#[trigger] ds[m])[0] != #[trigger] rule[p],
        forall|p: int| i <= p < j ==> is_quiet(#[trigger] rule[p]),
    ensures
        next_delimiter(rule, ds, i, scan_start()) == next_delimiter(rule, ds, j, scan_start()),
    decreases j - i,
{
    if i < j {
        lemma_no_mark(rule, ds, i, 0);
        assert(is_quiet(rule[i]));
        assert(scan_step(scan_start(), rule[i]) == scan_start());
        lemma_skip(rule, ds, i + 1, j);
    }
}

/// Whether a mark is one that rules are split at.
pub open spec fn is_mark(d: Seq<char>) -> bool {
    d == "@"@ || d == "&&"@ || d == "||"@ || d == "%%"@
}

proof fn lemma_mark(d: Seq<char>)
    requires
        is_mark(d),
    ensures
        1 <= d.len() <= 2,
        is_quiet(d[0]),
        d[0] == '@' || d[0] == '&' || d[0] == '|' || d[0] == '%',
        d[0] == '@' <==> d == seq!['@'],
        d[0] == '&' <==> d == "&&"@,
        d[0] == '|' <==> d == "||"@,
        d[0] == '%' <==> d == "%%"@,
        !is_space(d[0]),
        !is_space(d.last()),
{
    reveal_strlit("@");
    reveal_strlit("&&");
    reveal_strlit("||");
    reveal_strlit("%%");
    assert("@"@ =~= seq!['@']);
}

/// Whether parts hold nothing that a mark starts with.
pub open spec fn are_apart(parts: Seq<Seq<char>>, d: Seq<char>) -> bool {
    forall|i: int, p: int|
        0 <= i < parts.len() && 0 <= p < parts[i].len() ==> is_quiet(#[trigger] parts[i][p]) && parts[i][p] != d[0]
}

pub open spec fn are_trimmed(parts: Seq<Seq<char>>) -> bool {
    forall|i: int| 0 <= i < parts.len() ==> (#[trigger] parts[i]).len() > 0 && trim_of(parts[i]) == parts[i]
}

proof fn lemma_at_mark(rule: Seq<char>, d: Seq<char>, p: int)
    requires
        is_mark(d),
        0 <= p,
        p + d.len() < rule.len(),
        rule.subrange(p, p + d.len()) == d,
        rule[p + d.len()] != d[0],
    ensures
        delimiter_at(rule, d, p),
        scan_open(scan_start(), rule[p]),
{
    lemma_mark(d);
    assert(rule.subrange(p, p + d.len())[0] == rule[p]);
    if d == seq!['@'] && occurs_at(rule, seq!['@', '@'], p) {
        assert(rule.subrange(p, p + 2)[1] == '@');
    }
}

proof fn lemma_parts(rule: Seq<char>, parts: Seq<Seq<char>>, d: Seq<char>, start: int, k: int)
    requires
        is_mark(d),
        are_apart(parts, d),
        are_trimmed(parts),
        0 <= k < parts.len(),
        0 <= start <= rule.len(),
        rule.subrange(start, rule.len() as int) == strung(parts, d, k),
    ensures
        split_parts(rule, d, start) == parts.subrange(k, parts.len() as int),
    decreases parts.len() - k,
{
    lemma_mark(d);
    let tail = rule.subrange(start, rule.len() as int);
    let part = parts[k];
    let ds = seq![d];
    let p = start + part.len();
    assert(tail.subrange(0, part.len() as int) =~= part);
    assert forall|q: int| start <= q < p implies is_quiet(#[trigger] rule[q]) && rule[q] != d[0] by {
        assert(tail[q - start] == rule[q]);
        assert(part[q - start] == parts[k][q - start]);
    }
    lemma_skip(rule, ds, start, p);
    if k == parts.len() - 1 {
        assert(p == rule.len());
        assert(parts.subrange(k, parts.len() as int) =~= seq![part]);
    } else {
        let rest = strung(parts, d, k + 1);
        assert(parts[k + 1].len() > 0);
        assert(rest[0] == parts[k + 1][0]);
        assert(tail == part + d + rest);
        assert(tail.len() == rule.len() - start);
        assert(tail.len() == part.len() + d.len() + rest.len());
        assert forall|q: int| 0 <= q < d.len() + rest.len() implies #[trigger] rule[p + q] == (d + rest)[q] by {
            assert(tail[p - start + q] == rule[p + q]);
        }
        assert forall|q: int| 0 <= q < d.len() implies #[trigger] rule.subrange(p, p + d.len())[q] == d[q] by {
            assert(rule[p + q] == (d + rest)[q]);
        }
        assert(rule.subrange(p, p + d.len()) =~= d);
        assert(rule[p + d.len()] == tail[p - start + d.len()]);
        assert(tail[p - start + d.len()] == rest[0]);
        lemma_at_mark(rule, d, p);
        assert(first_delimiter_at(rule, ds, p, 0) == Some(0int));
        assert(next_delimiter(rule, ds, start, scan_start()) == Some((p, 0int)));
        assert(rule.subrange(start, p) =~= part);
        let after = rule.subrange(p + d.len(), rule.len() as int);
        assert forall|q: int| 0 <= q < rest.len() implies #[trigger] after[q] == rest[q] by {
            assert(rule[p + (d.len() + q)] == (d + rest)[d.len() + q]);
        }
        assert(after =~= rest);
        lemma_parts(rule, parts, d, p + d.len(), k + 1);
        assert(seq![part] + parts.subrange(k + 1, parts.len() as int) =~= parts.subrange(k, parts.len() as int));
    }
}

proof fn lemma_strung_ends(parts: Seq<Seq<char>>, d: Seq<char>, k: int)
    requires
        is_mark(d),
        are_trimmed(parts),
        0 <= k < parts.len(),
    ensures
        strung(parts, d, k).len() > 0,
        strung(parts, d, k)[0] == parts[k][0],
        !is_space(strung(parts, d, k)[0]),
        !is_space(strung(parts, d, k).last()),
        trim_of(strung(parts, d, k)) == strung(parts, d, k),
    decreases parts.len() - k,
{
    let s = strung(parts, d, k);
    lemma_trim_ends(parts[k]);
    assert(parts[k].len() > 0 && trim_of(parts[k]) == parts[k]);
    if k < parts.len() - 1 {
        lemma_strung_ends(parts, d, k + 1);
        assert(s.last() == strung(parts, d, k + 1).last());
    }
    lemma_solid_ends(s);
}

/// A rule that strings two or more parts together at a mark is split into those
/// parts, and a rule of one part is not split.
pub proof fn law_rule_is_split(parts: Seq<Seq<char>>, d: Seq<char>, marks: Seq<Seq<char>>)
    requires
        parts.len() > 0,
        are_trimmed(parts),
        d == "@"@ && marks == at_mark() || d == "@"@ && marks == chain_marks() || (d == "&&"@ || d == "||"@ || d
            == "%%"@) && marks == combination_marks(),
        forall|m: int| 0 <= m < marks.len() ==> are_apart(parts, #[trigger] marks[m]),
    ensures
        split_result(strung(parts, d, 0), marks) == parts,
        parts.len() > 1 ==> split_delimiter(strung(parts, d, 0), marks) == Some(d),
        parts.len() == 1 ==> split_delimiter(strung(parts, d, 0), marks) is None,
{
    reveal_strlit("@");
    reveal_strlit("@@");
    reveal_strlit("&&");
    reveal_strlit("||");
    reveal_strlit("%%");
    assert("@"@ =~= seq!['@']);
    lemma_mark(d);
    let rule = strung(parts, d, 0);
    lemma_strung_ends(parts, d, 0);
    let part = parts[0];
    let p = part.len() as int;
    assert(exists|m: int| 0 <= m < marks.len() && #[trigger] marks[m] == d) by {
        assert(at_mark()[0] == "@"@ && chain_marks()[0] == "@"@);
        assert(combination_marks()[0] == "&&"@ && combination_marks()[1] == "||"@ && combination_marks()[2] == "%%"@);
    }
    assert(are_apart(parts, d));
    assert forall|q: int| 0 <= q < p implies is_quiet(#[trigger] rule[q]) && part[q] == rule[q] by {
        assert(is_quiet(parts[0][q]));
    }
    assert forall|m: int, q: int| 0 <= m < marks.len() && 0 <= q < p implies (#[trigger] marks[m])[0] != #[trigger] rule[q] by {
        assert(are_apart(parts, marks[m]));
        assert(parts[0][q] != marks[m][0]);
    }
    lemma_skip(rule, marks, 0, p);
    if parts.len() == 1 {
        assert(rule == part);
        assert(parts =~= seq![part]);
    } else {
        let rest = strung(parts, d, 1);
        lemma_strung_ends(parts, d, 1);
        assert(rule == part + d + rest);
        assert(rule.subrange(p, p + d.len()) =~= d);
        assert(rule[p + d.len()] == rest[0]);
        assert(parts[1][0] != d[0]);
        lemma_at_mark(rule, d, p);
        assert(rule[p] == d[0]);
        lemma_first_mark(rule, d, marks, p);
        assert(rule.subrange(0, rule.len() as int) =~= rule);
        lemma_parts(rule, parts, d, 0, 0);
        assert(parts.subrange(0, parts.len() as int) =~= parts);
    }
}

proof fn lemma_first_mark(rule: Seq<char>, d: Seq<char>, marks: Seq<Seq<char>>, p: int)
    requires
        is_mark(d),
        0 <= p < rule.len(),
        rule[p] == d[0],
        delimiter_at(rule, d, p),
        d == "@"@ && marks == at_mark() || d == "@"@ && marks == chain_marks() || (d == "&&"@ || d == "||"@ || d
            == "%%"@) && marks == combination_marks(),
    ensures
        first_delimiter_at(rule, marks, p, 0) is Some,
        marks[first_delimiter_at(rule, marks, p, 0)->0] == d,
{
    reveal_strlit("&&");
    reveal_strlit("||");
    reveal_strlit("%%");
    lemma_mark(d);
    reveal_with_fuel(first_delimiter_at, 4);
    assert forall|m: int| 0 <= m < marks.len() && marks == combination_marks() && #[trigger] marks[m] != d implies !delimiter_at(
        rule,
        marks[m],
        p,
    ) by {
        if occurs_at(rule, marks[m], p) {
            assert(rule.subrange(p, p + marks[m].len())[0] == rule[p]);
        }
    }
}

/// The elements that the first `n` steps of a chain lead to.
pub open spec fn led_to(html: Seq<char>, steps: Seq<Seq<char>>, n: int) -> Seq<int>
    decreases n,
{
    if n <= 1 {
        matches_of(html, selector_of(steps[0]))
    } else {
        each_match(html, led_to(html, steps, n - 1), selector_of(steps[n - 1])).flatten()
    }
}

proof fn lemma_led(html: Seq<char>, steps: Seq<Seq<char>>, k: int, current: Seq<int>)
    requires
        1 <= k <= steps.len(),
        forall|i: int| 0 <= i < steps.len() ==> is_step(#[trigger] steps[i]) && !takes_value(steps[i]),
        current == led_to(html, steps, k),
        current.len() > 0,
    ensures
        chain_from(html, steps, k, current, false) == led_to(html, steps, steps.len() as int),
    decreases steps.len() - k,
{
    if k < steps.len() {
        assert(is_step(steps[k]));
        let s = selector_of(steps[k]);
        law_step_takes_all(html, current, s);
        let next = matches_under_all(html, current, s, current.len() as int);
        assert(next == led_to(html, steps, k + 1));
        if next.len() == 0 {
            lemma_led_nowhere(html, steps, k + 1, steps.len() as int);
        } else {
            lemma_led(html, steps, k + 1, next);
        }
    }
}

proof fn lemma_led_nowhere(html: Seq<char>, steps: Seq<Seq<char>>, k: int, n: int)
    requires
        1 <= k <= n,
        led_to(html, steps, k).len() == 0,
    ensures
        led_to(html, steps, n) == Seq::<int>::empty(),
    decreases n - k,
{
    if k < n {
        lemma_led_nowhere(html, steps, k, n - 1);
        assert(each_match(html, led_to(html, steps, n - 1), selector_of(steps[n - 1])) =~= seq![]);
    } else {
        assert(led_to(html, steps, n) =~= seq![]);
    }
}

/// A chain of steps leads to what its first step matches in the document, and
/// from there to what each further step matches from every element before it.
pub proof fn law_chain_follows_its_steps(html: Seq<char>, steps: Seq<Seq<char>>)
    requires
        steps.len() > 0,
        forall|i: int| 0 <= i < steps.len() ==> is_step(#[trigger] steps[i]) && !takes_value(steps[i]),
    ensures
        chain_of(html, strung(steps, "@"@, 0)) == led_to(html, steps, steps.len() as int),
{
    reveal_strlit("@");
    reveal_strlit("@@");
    assert("@"@ =~= seq!['@']);
    let rule = strung(steps, "@"@, 0);
    assert forall|m: int| 0 <= m < chain_marks().len() implies are_apart(steps, #[trigger] chain_marks()[m]) by {
        assert forall|i: int, p: int| 0 <= i < steps.len() && 0 <= p < steps[i].len() implies is_quiet(
            #[trigger] steps[i][p],
        ) && steps[i][p] != chain_marks()[m][0] by {
            assert(is_step(steps[i]));
        }
    }
    assert(are_trimmed(steps)) by {
        assert(forall|i: int| 0 <= i < steps.len() ==> is_step(#[trigger] steps[i]));
    }
    lemma_strung_ends(steps, "@"@, 0);
    law_rule_is_split(steps, "@"@, chain_marks());
    assert(is_step(steps[0]));
    if has_prefix(rule, "@@"@) {
        assert(rule.subrange(0, 2)[0] == '@');
    }
    let first = matches_of(html, selector_of(steps[0]));
    assert(led_to(html, steps, 1) == first);
    if first.len() == 0 {
        lemma_led_nowhere(html, steps, 1, steps.len() as int);
    } else {
        lemma_led(html, steps, 1, first);
    }
}

/// A further step of a chain keeps what it matches from every element that the
/// chain led to, and leads to nothing else.
pub proof fn law_chain_keeps_every_branch(html: Seq<char>, steps: Seq<Seq<char>>, step: Seq<char>, e: int)
    requires
        steps.len() > 0,
        forall|i: int| 0 <= i < steps.len() ==> is_step(#[trigger] steps[i]) && !takes_value(steps[i]),
        is_step(step),
        !takes_value(step),
    ensures
        chain_of(html, strung(steps.push(step), "@"@, 0)).contains(e) <==> exists|p: int| #[trigger]
            chain_of(html, strung(steps, "@"@, 0)).contains(p) && matches_under(html, p, selector_of(step)).contains(e),
{
    let more = steps.push(step);
    assert forall|i: int| 0 <= i < more.len() implies is_step(#[trigger] more[i]) && !takes_value(more[i]) by {
        if i < steps.len() {
            assert(more[i] == steps[i]);
        }
    }
    law_chain_follows_its_steps(html, steps);
    law_chain_follows_its_steps(html, more);
    let before = chain_of(html, strung(steps, "@"@, 0));
    lemma_same_steps(html, steps, more, steps.len() as int);
    let s = selector_of(step);
    law_step_takes_all(html, before, s);
    let all = matches_under_all(html, before, s, before.len() as int);
    assert(chain_of(html, strung(more, "@"@, 0)) == all);
    if all.contains(e) {
        let i = choose|i: int| 0 <= i < before.len() && matches_under(html, #[trigger] before[i], s).contains(e);
        assert(before.contains(before[i]));
    }
    if exists|p: int| #[trigger] before.contains(p) && matches_under(html, p, s).contains(e) {
        let p = choose|p: int| #[trigger] before.contains(p) && matches_under(html, p, s).contains(e);
        let i = choose|i: int| 0 <= i < before.len() && before[i] == p;
        assert(matches_under(html, before[i], s).contains(e));
    }
}

proof fn lemma_same_steps(html: Seq<char>, a: Seq<Seq<char>>, b: Seq<Seq<char>>, n: int)
    requires
        1 <= n <= a.len() <= b.len(),
        forall|i: int| 0 <= i < a.len() ==> #[trigger] a[i] == b[i],
    ensures
        led_to(html, a, n) == led_to(html, b, n),
    decreases n,
{
    assert(a[n - 1] == b[n - 1] && a[0] == b[0]);
    if n > 1 {
        lemma_same_steps(html, a, b, n - 1);
    }
}

} // verus!
