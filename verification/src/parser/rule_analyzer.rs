//! Splitting of rules at top-level delimiters, and merging of result groups.

use crate::util::chars::{chars_at, chars_of, occurs_at, string_range, texts, trim, trim_of};
use vstd::prelude::*;

verus! {

#[derive(Debug, Clone, PartialEq, Eq)]
pub struct SplitResult {
    pub parts: Vec<String>,
    pub delimiter: Option<String>,
}

/// What a scan of a rule remembers: the open brackets of each kind, the quote
/// that is open, and whether the last character was an escape.
pub struct Scan {
    pub square: int,
    pub paren: int,
    pub brace: int,
    pub quote: Option<char>,
    pub escaped: bool,
}

pub open spec fn scan_start() -> Scan {
    Scan { square: 0, paren: 0, brace: 0, quote: None, escaped: false }
}

/// The scan's state after one more character.
pub open spec fn scan_step(s: Scan, c: char) -> Scan {
    match s.quote {
        Some(q) => if s.escaped {
            Scan { escaped: false, ..s }
        } else if c == '\\' {
            Scan { escaped: true, ..s }
        } else if c == q {
            Scan { quote: None, ..s }
        } else {
            s
        },
        None => if c == '"' || c == '\'' {
            Scan { quote: Some(c), ..s }
        } else if c == '[' {
            Scan { square: s.square + 1, ..s }
        } else if c == ']' {
            Scan { square: s.square - 1, ..s }
        } else if c == '(' {
            Scan { paren: s.paren + 1, ..s }
        } else if c == ')' {
            Scan { paren: s.paren - 1, ..s }
        } else if c == '{' {
            Scan { brace: s.brace + 1, ..s }
        } else if c == '}' {
            Scan { brace: s.brace - 1, ..s }
        } else if c == '\\' {
            Scan { escaped: true, ..s }
        } else {
            s
        },
    }
}

/// Whether a delimiter may stand at a character read in state `before`: it is
/// outside quotes, opens or escapes nothing, and leaves all brackets balanced.
pub open spec fn scan_open(before: Scan, c: char) -> bool {
    let after = scan_step(before, c);
    &&& before.quote is None
    &&& c != '"' && c != '\'' && c != '\\'
    &&& after.square == 0 && after.paren == 0 && after.brace == 0
}

/// Whether `d` stands in `rule` at `i`; a single `@` does not match inside `@@`.
pub open spec fn delimiter_at(rule: Seq<char>, d: Seq<char>, i: int) -> bool {
    occurs_at(rule, d, i) && !(d == seq!['@'] && occurs_at(rule, seq!['@', '@'], i))
}

/// The index of the first delimiter of the list that stands in `rule` at `i`.
pub open spec fn first_delimiter_at(rule: Seq<char>, ds: Seq<Seq<char>>, i: int, k: int) -> Option<int>
    decreases ds.len() - k,
{
    if k < 0 || k >= ds.len() {
        None
    } else if delimiter_at(rule, ds[k], i) {
        Some(k)
    } else {
        first_delimiter_at(rule, ds, i, k + 1)
    }
}

/// The first position at or after `i` where a delimiter stands at top level,
/// with the index of that delimiter, for a scan in state `s` at `i`.
pub open spec fn next_delimiter(rule: Seq<char>, ds: Seq<Seq<char>>, i: int, s: Scan) -> Option<(int, int)>
    decreases rule.len() - i,
{
    if i < 0 || i >= rule.len() {
        None
    } else if scan_open(s, rule[i]) && first_delimiter_at(rule, ds, i, 0) is Some {
        Some((i, first_delimiter_at(rule, ds, i, 0)->0))
    } else {
        next_delimiter(rule, ds, i + 1, scan_step(s, rule[i]))
    }
}

pub proof fn lemma_next_delimiter(rule: Seq<char>, ds: Seq<Seq<char>>, i: int, s: Scan)
    requires
        0 <= i,
    ensures
        match next_delimiter(rule, ds, i, s) {
            Some((p, k)) => i <= p < rule.len() && 0 <= k < ds.len() && delimiter_at(rule, ds[k], p),
            None => true,
        },
    decreases rule.len() - i,
{
    if i < rule.len() {
        if scan_open(s, rule[i]) && first_delimiter_at(rule, ds, i, 0) is Some {
            lemma_first_delimiter(rule, ds, i, 0);
        } else {
            lemma_next_delimiter(rule, ds, i + 1, scan_step(s, rule[i]));
        }
    }
}

pub proof fn lemma_first_delimiter(rule: Seq<char>, ds: Seq<Seq<char>>, i: int, k: int)
    requires
        0 <= k,
    ensures
        match first_delimiter_at(rule, ds, i, k) {
            Some(j) => k <= j < ds.len() && delimiter_at(rule, ds[j], i),
            None => true,
        },
    decreases ds.len() - k,
{
    if k < ds.len() && !delimiter_at(rule, ds[k], i) {
        lemma_first_delimiter(rule, ds, i, k + 1);
    }
}

/// The trimmed pieces of `rule[start..]` between the top-level occurrences of `d`.
pub open spec fn split_parts(rule: Seq<char>, d: Seq<char>, start: int) -> Seq<Seq<char>>
    decreases rule.len() - start,
{
    match next_delimiter(rule, seq![d], start, scan_start()) {
        Some((p, _)) => if d.len() > 0 && start <= p && p + d.len() <= rule.len() {
            seq![trim_of(rule.subrange(start, p))] + split_parts(rule, d, p + d.len())
        } else {
            seq![trim_of(rule.subrange(start, rule.len() as int))]
        },
        None => seq![trim_of(rule.subrange(start, rule.len() as int))],
    }
}

/// The delimiter that a rule is split at: the one of the list that comes first
/// in the rule at top level.
pub open spec fn split_delimiter(rule: Seq<char>, ds: Seq<Seq<char>>) -> Option<Seq<char>> {
    match next_delimiter(rule, ds, 0, scan_start()) {
        Some((_, k)) => Some(ds[k]),
        None => None,
    }
}

/// The parts of a rule split at its delimiter.
pub open spec fn split_result(rule: Seq<char>, ds: Seq<Seq<char>>) -> Seq<Seq<char>> {
    match split_delimiter(rule, ds) {
        Some(d) => split_parts(rule, d, 0),
        None => seq![trim_of(rule)],
    }
}

proof fn lemma_delimiter_found(rule: Seq<char>, ds: Seq<Seq<char>>, i: int, s: Scan)
    requires
        0 <= i,
    ensures
        match next_delimiter(rule, ds, i, s) {
            Some((_, k)) => next_delimiter(rule, seq![ds[k]], i, s) is Some,
            None => true,
        },
    decreases rule.len() - i,
{
    if i < rule.len() {
        if scan_open(s, rule[i]) && first_delimiter_at(rule, ds, i, 0) is Some {
            lemma_first_delimiter(rule, ds, i, 0);
            let k = first_delimiter_at(rule, ds, i, 0)->0;
            assert(first_delimiter_at(rule, seq![ds[k]], i, 0) is Some);
        } else {
            lemma_delimiter_found(rule, ds, i + 1, scan_step(s, rule[i]));
        }
    }
}

proof fn lemma_parts_len(rule: Seq<char>, d: Seq<char>, start: int)
    requires
        0 <= start <= rule.len(),
    ensures
        forall|i: int|
            0 <= i < split_parts(rule, d, start).len() ==> (#[trigger] split_parts(rule, d, start)[i]).len()
                <= rule.len() - start,
        d.len() > 0 && next_delimiter(rule, seq![d], start, scan_start()) is Some ==> forall|i: int|
            0 <= i < split_parts(rule, d, start).len() ==> (#[trigger] split_parts(rule, d, start)[i]).len()
                < rule.len() - start,
    decreases rule.len() - start,
{
    crate::util::chars::lemma_trim_len(rule.subrange(start, rule.len() as int));
    lemma_next_delimiter(rule, seq![d], start, scan_start());
    match next_delimiter(rule, seq![d], start, scan_start()) {
        Some((p, _)) => {
            crate::util::chars::lemma_trim_len(rule.subrange(start, p));
            if d.len() > 0 {
                lemma_parts_len(rule, d, p + d.len());
                let rest = split_parts(rule, d, p + d.len());
                let first = seq![trim_of(rule.subrange(start, p))];
                assert forall|i: int| 0 <= i < (first + rest).len() implies (#[trigger] (first + rest)[i]).len()
                    < rule.len() - start by {
                    if i > 0 {
                        assert((first + rest)[i] == rest[i - 1]);
                    }
                }
            }
        },
        None => {},
    }
}

/// The parts of a rule that is split at a delimiter are shorter than the rule.
pub proof fn lemma_parts_shorter(rule: Seq<char>, ds: Seq<Seq<char>>)
    requires
        split_delimiter(rule, ds) is Some,
        forall|i: int| 0 <= i < ds.len() ==> (#[trigger] ds[i]).len() > 0,
    ensures
        forall|i: int|
            0 <= i < split_result(rule, ds).len() ==> (#[trigger] split_result(rule, ds)[i]).len() < rule.len(),
{
    lemma_next_delimiter(rule, ds, 0, scan_start());
    lemma_delimiter_found(rule, ds, 0, scan_start());
    lemma_parts_len(rule, split_delimiter(rule, ds)->0, 0);
}

/// Splitting a rule always gives at least one part.
pub proof fn lemma_parts_nonempty(rule: Seq<char>, ds: Seq<Seq<char>>)
    ensures
        split_result(rule, ds).len() > 0,
{
    match split_delimiter(rule, ds) {
        Some(d) => lemma_split_parts_nonempty(rule, d, 0),
        None => {},
    }
}

proof fn lemma_split_parts_nonempty(rule: Seq<char>, d: Seq<char>, start: int)
    ensures
        split_parts(rule, d, start).len() > 0,
    decreases rule.len() - start,
{
}

pub open spec fn strs(v: Seq<&str>) -> Seq<Seq<char>> {
    Seq::new(v.len(), |i: int| v[i]@)
}

/// The running state of a scan; see [`Scan`].
struct Scanner {
    square: i128,
    paren: i128,
    brace: i128,
    quote: Option<char>,
    escaped: bool,
}

impl Scanner {
    spec fn model(self) -> Scan {
        Scan {
            square: self.square as int,
            paren: self.paren as int,
            brace: self.brace as int,
            quote: self.quote,
            escaped: self.escaped,
        }
    }

    spec fn within(self, n: int) -> bool {
        &&& -n <= self.square <= n
        &&& -n <= self.paren <= n
        &&& -n <= self.brace <= n
    }

    /// Reads one character; the result tells whether a delimiter may stand at it.
    fn read(&mut self, c: char, n: usize) -> (open: bool)
        requires
            old(self).within(n as int),
        ensures
            final(self).model() == scan_step(old(self).model(), c),
            open == scan_open(old(self).model(), c),
            final(self).within(n + 1),
    {
        if let Some(q) = self.quote {
            if self.escaped {
                self.escaped = false;
            } else if c == '\\' {
                self.escaped = true;
            } else if c == q {
                self.quote = None;
            }
            return false;
        }
        if c == '"' || c == '\'' {
            self.quote = Some(c);
            return false;
        }
        if c == '\\' {
            self.escaped = true;
            return false;
        }
        if c == '[' {
            self.square = self.square + 1;
        } else if c == ']' {
            self.square = self.square - 1;
        } else if c == '(' {
            self.paren = self.paren + 1;
        } else if c == ')' {
            self.paren = self.paren - 1;
        } else if c == '{' {
            self.brace = self.brace + 1;
        } else if c == '}' {
            self.brace = self.brace - 1;
        }
        self.square == 0 && self.paren == 0 && self.brace == 0
    }
}

pub open spec fn char_lists(v: Seq<Vec<char>>) -> Seq<Seq<char>> {
    Seq::new(v.len(), |i: int| v[i]@)
}

pub fn delimiter_here(rule: &Vec<char>, delimiters: &Vec<Vec<char>>, i: usize) -> (r: Option<usize>)
    ensures
        match r {
            Some(k) => first_delimiter_at(rule@, char_lists(delimiters@), i as int, 0) == Some(k as int) && k
                < delimiters.len() && delimiter_at(rule@, delimiters@[k as int]@, i as int),
            None => first_delimiter_at(rule@, char_lists(delimiters@), i as int, 0) is None,
        },
{
    let one: Vec<char> = vec!['@'];
    let two: Vec<char> = vec!['@', '@'];
    let mut k: usize = 0;
    while k < delimiters.len()
        invariant
            k <= delimiters.len(),
            one@ =~= seq!['@'],
            two@ =~= seq!['@', '@'],
            first_delimiter_at(rule@, char_lists(delimiters@), i as int, 0) == first_delimiter_at(
                rule@,
                char_lists(delimiters@),
                i as int,
                k as int,
            ),
        decreases delimiters.len() - k,
    {
        let d = &delimiters[k];
        if chars_at(rule, d, i) {
            let single = d.len() == 1 && d[0] == '@';
            assert(single <==> d@ =~= seq!['@']);
            if !(single && chars_at(rule, &two, i)) {
                return Some(k);
            }
        }
        k = k + 1;
    }
    None
}

/// Finds the first top-level delimiter at or after `from`.
pub fn find_next_delimiter(rule: &Vec<char>, delimiters: &Vec<Vec<char>>, from: usize) -> (r: Option<(usize, usize)>)
    ensures
        match r {
            Some((p, k)) => next_delimiter(rule@, char_lists(delimiters@), from as int, scan_start()) == Some(
                (p as int, k as int),
            ) && from <= p && k < delimiters.len() && p + delimiters@[k as int].len() <= rule.len(),
            None => next_delimiter(rule@, char_lists(delimiters@), from as int, scan_start()) is None,
        },
{
    let mut scanner = Scanner { square: 0, paren: 0, brace: 0, quote: None, escaped: false };
    let mut i: usize = from;
    while i < rule.len()
        invariant
            from <= i,
            scanner.within(i as int),
            next_delimiter(rule@, char_lists(delimiters@), from as int, scan_start()) == next_delimiter(
                rule@,
                char_lists(delimiters@),
                i as int,
                scanner.model(),
            ),
        decreases rule.len() - i,
    {
        let open = scanner.read(rule[i], i);
        if open {
            if let Some(k) = delimiter_here(rule, delimiters, i) {
                return Some((i, k));
            }
        }
        i = i + 1;
    }
    None
}

/// Splits a rule at the delimiter that comes first in it outside quotes and
/// brackets. Every part is trimmed; without a delimiter the rule is one part.
///
/// A delimiter without characters would match everywhere and end nowhere.
pub fn split_top_level(rule: &str, delimiters: &[&str]) -> (r: SplitResult)
    requires
        forall|i: int| 0 <= i < delimiters@.len() ==> (#[trigger] delimiters@[i])@.len() > 0,
    ensures
        texts(r.parts@) == split_result(rule@, strs(delimiters@)),
        crate::util::chars::opt_text(r.delimiter) == split_delimiter(rule@, strs(delimiters@)),
{
    let text = chars_of(rule);
    let mut lists: Vec<Vec<char>> = Vec::new();
    let mut i: usize = 0;
    while i < delimiters.len()
        invariant
            i <= delimiters@.len(),
            lists.len() == i,
            forall|j: int| 0 <= j < i ==> (#[trigger] lists@[j])@ == delimiters@[j]@,
        decreases delimiters@.len() - i,
    {
        lists.push(chars_of(delimiters[i]));
        i = i + 1;
    }
    assert(char_lists(lists@) =~= strs(delimiters@));
    let found = find_next_delimiter(&text, &lists, 0);
    let (_, k) = match found {
        Some(x) => x,
        None => {
            let mut parts: Vec<String> = Vec::new();
            parts.push(trim(rule));
            assert(texts(parts@) =~= seq![trim_of(rule@)]);
            return SplitResult { parts, delimiter: None };
        },
    };
    let ghost d = delimiters@[k as int]@;
    assert(lists@[k as int]@ == d);
    let mut one: Vec<Vec<char>> = Vec::new();
    one.push(chars_of(delimiters[k]));
    assert(char_lists(one@) =~= seq![d]);
    let step: usize = one[0].len();
    let mut parts: Vec<String> = Vec::new();
    let mut start: usize = 0;
    assert(texts(parts@) + split_parts(rule@, d, 0) =~= split_parts(rule@, d, 0));
    loop
        invariant_except_break
            start <= text.len(),
            split_parts(rule@, d, 0) == texts(parts@) + split_parts(rule@, d, start as int),
        invariant
            text@ == rule@,
            char_lists(one@) == seq![d],
            one.len() == 1,
            one@[0]@ == d,
            step == d.len(),
            step > 0,
        ensures
            texts(parts@) == split_parts(rule@, d, 0),
        decreases text.len() - start,
    {
        let ghost before = texts(parts@);
        match find_next_delimiter(&text, &one, start) {
            Some((p, j)) => {
                let piece = string_range(&text, start, p);
                parts.push(trim(piece.as_str()));
                assert(texts(parts@) =~= before.push(trim_of(rule@.subrange(start as int, p as int))));
                assert(before + (seq![trim_of(rule@.subrange(start as int, p as int))] + split_parts(
                    rule@,
                    d,
                    p + step,
                )) =~= texts(parts@) + split_parts(rule@, d, p + step));
                start = p + step;
            },
            None => {
                let piece = string_range(&text, start, text.len());
                parts.push(trim(piece.as_str()));
                assert(texts(parts@) =~= before + seq![
                    trim_of(rule@.subrange(start as int, rule@.len() as int)),
                ]);
                break;
            },
        }
    }
    SplitResult { parts, delimiter: Some(delimiters[k].to_owned()) }
}

/// The items at position `j` of the groups that are long enough, in group order.
pub open spec fn column<T>(groups: Seq<Seq<T>>, j: int) -> Seq<T>
    decreases groups.len(),
{
    if groups.len() == 0 {
        seq![]
    } else {
        let rest = column(groups.drop_last(), j);
        if 0 <= j < groups.last().len() {
            rest.push(groups.last()[j])
        } else {
            rest
        }
    }
}

/// The first `n` columns, one after the other.
pub open spec fn columns<T>(groups: Seq<Seq<T>>, n: int) -> Seq<T>
    decreases n,
{
    if n <= 0 {
        seq![]
    } else {
        columns(groups, n - 1) + column(groups, n - 1)
    }
}

/// The groups merged item by item: as many rounds as the first group is long.
pub open spec fn interleaved<T>(groups: Seq<Seq<T>>) -> Seq<T> {
    if groups.len() == 0 {
        seq![]
    } else {
        columns(groups, groups[0].len() as int)
    }
}

pub open spec fn lists_of<T>(v: Seq<Vec<T>>) -> Seq<Seq<T>> {
    Seq::new(v.len(), |i: int| v[i]@)
}

spec fn tail_of<T>(s: Seq<T>, j: int) -> Seq<T> {
    if j <= s.len() {
        s.subrange(j, s.len() as int)
    } else {
        seq![]
    }
}

/// Merges groups of results: the first items of all groups, then the second
/// ones, for as many rounds as the first group has items.
pub fn interleave_result_groups<T>(groups: Vec<Vec<T>>) -> (r: Vec<T>)
    ensures
        r@ == interleaved(lists_of(groups@)),
{
    let mut groups = groups;
    let ghost all = lists_of(groups@);
    let mut result: Vec<T> = Vec::new();
    if groups.len() == 0 {
        return result;
    }
    let rounds: usize = groups[0].len();
    let mut j: usize = 0;
    assert(forall|g: int| 0 <= g < all.len() ==> tail_of(#[trigger] all[g], 0) =~= all[g]);
    while j < rounds
        invariant
            j <= rounds,
            groups.len() == all.len(),
            forall|g: int| 0 <= g < groups.len() ==> (#[trigger] groups@[g])@ == tail_of(all[g], j as int),
            result@ == columns(all, j as int),
        decreases rounds - j,
    {
        let mut i: usize = 0;
        let ghost base = result@;
        assert(all.take(0) =~= seq![]);
        while i < groups.len()
            invariant
                i <= groups.len(),
                j < rounds,
                groups.len() == all.len(),
                forall|g: int| i <= g < groups.len() ==> (#[trigger] groups@[g])@ == tail_of(all[g], j as int),
                forall|g: int| 0 <= g < i ==> (#[trigger] groups@[g])@ == tail_of(all[g], j + 1),
                result@ == base + column(all.take(i as int), j as int),
            decreases groups.len() - i,
        {
            assert(all.take(i + 1).drop_last() =~= all.take(i as int));
            let ghost here = groups@[i as int]@;
            if groups[i].len() > 0 {
                let item = groups[i].remove(0);
                assert(item == all[i as int][j as int]);
                result.push(item);
                assert(groups@[i as int]@ =~= tail_of(all[i as int], j + 1));
            } else {
                assert(here =~= tail_of(all[i as int], j + 1));
            }
            assert(result@ =~= base + column(all.take(i + 1), j as int));
            i = i + 1;
        }
        assert(all.take(groups.len() as int) =~= all);
        j = j + 1;
    }
    result
}

} // verus!
