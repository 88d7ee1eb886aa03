//! What a date pattern stands for.

use crate::ext::time::time_text;
use crate::parser::field::or_blank;
use crate::parser::java_time::{format_from, repeated, run_end, short_fraction_from, time_format};
use crate::util::chars::is_ascii_letter;
use vstd::prelude::*;

verus! {

/// The letter of a number that is written with a leading zero where its letter
/// stands twice or more, and without one where it stands once.
pub open spec fn padded_number(c: char) -> Option<char> {
    match c {
        'd' => Some('d'),
        'H' => Some('H'),
        'h' => Some('I'),
        'm' => Some('M'),
        's' => Some('S'),
        _ => None,
    }
}

/// The directive that a letter so many times in a row stands for, for letters
/// that stand for something.
pub open spec fn field_format(c: char, width: int) -> Option<Seq<char>> {
    match padded_number(c) {
        Some(d) => Some(
            if width == 1 {
                seq!['%', '-', d]
            } else {
                seq!['%', d]
            },
        ),
        None => if c == 'M' && width == 1 {
            Some(seq!['%', '-', 'm'])
        } else if c == 'M' && width == 2 {
            Some(seq!['%', 'm'])
        } else if c == 'M' {
            Some(
                seq![
                    '%',
                    if width == 3 {
                        'b'
                    } else {
                        'B'
                    },
                ],
            )
        } else if c == 'y' {
            Some(
                seq![
                    '%',
                    if width == 2 {
                        'y'
                    } else {
                        'Y'
                    },
                ],
            )
        } else if c == 'E' {
            Some(
                seq![
                    '%',
                    if width > 3 {
                        'A'
                    } else {
                        'a'
                    },
                ],
            )
        } else if c == 'S' && width >= 3 {
            Some(seq!['%', '3', 'f'])
        } else if c == 'X' && width >= 3 {
            Some(seq!['%', ':', 'z'])
        } else if c == 'Z' || c == 'X' {
            Some(seq!['%', 'z'])
        } else if c == 'a' {
            Some(seq!['%', 'p'])
        } else if c == 'u' {
            Some(seq!['%', 'u'])
        } else {
            None
        },
    }
}

/// Whether a letter stands for a part of a date or a time.
pub open spec fn is_date_letter(c: char) -> bool {
    c == 'y' || c == 'M' || c == 'd' || c == 'H' || c == 'h' || c == 'm' || c == 's' || c == 'S' || c == 'a' || c == 'E'
        || c == 'u' || c == 'Z' || c == 'X'
}

/// Text that stands for itself in a format: its percent signs twice.
pub open spec fn plain_format(s: Seq<char>) -> Seq<char> {
    s.map_values(
        |c: char|
            if c == '%' {
                seq!['%', '%']
            } else {
                seq![c]
            },
    ).flatten()
}

proof fn lemma_run(s: Seq<char>, i: int, end: int, c: char)
    requires
        0 <= i <= end <= s.len(),
        forall|k: int| i <= k < end ==> s[k] == c,
        end == s.len() || s[end] != c,
    ensures
        run_end(s, i, c) == end,
    decreases end - i,
{
    if i < end {
        lemma_run(s, i + 1, end, c);
    }
}

proof fn lemma_run_shift(a: Seq<char>, b: Seq<char>, i: int, c: char)
    requires
        0 <= i <= b.len(),
    ensures
        run_end(a + b, a.len() + i, c) == a.len() + run_end(b, i, c),
        i <= run_end(b, i, c) <= b.len(),
    decreases b.len() - i,
{
    if i < b.len() {
        assert((a + b)[a.len() + i] == b[i]);
        if b[i] == c {
            lemma_run_shift(a, b, i + 1, c);
        }
    }
}

proof fn lemma_shift(a: Seq<char>, b: Seq<char>, i: int, quoted: bool)
    requires
        0 <= i <= b.len(),
    ensures
        format_from(a + b, a.len() + i, quoted) == format_from(b, i, quoted),
        short_fraction_from(a + b, a.len() + i, quoted) == short_fraction_from(b, i, quoted),
    decreases b.len() - i,
{
    let s = a + b;
    let j = a.len() + i;
    if i < b.len() {
        assert(s[j] == b[i]);
        if b[i] == '\'' {
            if i + 1 < b.len() {
                assert(s[j + 1] == b[i + 1]);
                if b[i + 1] == '\'' {
                    lemma_shift(a, b, i + 2, quoted);
                }
            }
            lemma_shift(a, b, i + 1, !quoted);
        } else if quoted || !is_ascii_letter(b[i]) {
            lemma_shift(a, b, i + 1, quoted);
        } else {
            lemma_run_shift(a, b, i + 1, b[i]);
            lemma_shift(a, b, run_end(b, i + 1, b[i]), false);
        }
    }
}

/// A run of a letter is written as the directive of that letter and width, ahead
/// of what the rest of the pattern is written as; letters without a directive
/// are written as they are.
pub proof fn law_field_is_written(c: char, width: int, rest: Seq<char>)
    requires
        is_ascii_letter(c),
        width >= 1,
        rest.len() > 0 ==> rest[0] != c,
        c == 'S' ==> width >= 3,
    ensures
        is_date_letter(c) <==> field_format(c, width) is Some,
        match field_format(c, width) {
            Some(f) => format_from(repeated(c, width) + rest, 0, false) == f + format_from(rest, 0, false),
            None => format_from(repeated(c, width) + rest, 0, false) == repeated(c, width) + format_from(rest, 0, false),
        },
        short_fraction_from(repeated(c, width) + rest, 0, false) == short_fraction_from(rest, 0, false),
{
    reveal_strlit("%y");
    reveal_strlit("%Y");
    reveal_strlit("%-m");
    reveal_strlit("%m");
    reveal_strlit("%b");
    reveal_strlit("%B");
    reveal_strlit("%-d");
    reveal_strlit("%d");
    reveal_strlit("%-H");
    reveal_strlit("%H");
    reveal_strlit("%-I");
    reveal_strlit("%I");
    reveal_strlit("%-M");
    reveal_strlit("%M");
    reveal_strlit("%-S");
    reveal_strlit("%S");
    reveal_strlit("%3f");
    reveal_strlit("%p");
    reveal_strlit("%a");
    reveal_strlit("%A");
    reveal_strlit("%u");
    reveal_strlit("%z");
    reveal_strlit("%:z");
    let run = repeated(c, width);
    let s = run + rest;
    assert(s[0] == c);
    lemma_run(s, 1, width, c);
    lemma_shift(run, rest, 0, false);
    let d = crate::parser::java_time::directive(c, width);
    assert(format_from(s, 0, false) == d + format_from(rest, 0, false));
    if let Some(f) = field_format(c, width) {
        assert(d =~= f);
    }
}

/// A fraction of one or two digits, wherever it stands outside quotes, is told.
pub proof fn law_short_fraction_is_told(width: int, rest: Seq<char>)
    requires
        1 <= width < 3,
        rest.len() > 0 ==> rest[0] != 'S',
    ensures
        short_fraction_from(repeated('S', width) + rest, 0, false),
{
    let s = repeated('S', width) + rest;
    assert(s[0] == 'S');
    lemma_run(s, 1, width, 'S');
}

/// A character that is neither a letter nor a quote stands for itself.
pub proof fn law_separator_is_written(c: char, rest: Seq<char>)
    requires
        !is_ascii_letter(c),
        c != '\'',
    ensures
        format_from(seq![c] + rest, 0, false) == plain_format(seq![c]) + format_from(rest, 0, false),
        short_fraction_from(seq![c] + rest, 0, false) == short_fraction_from(rest, 0, false),
{
    reveal_strlit("%%");
    let s = seq![c] + rest;
    assert(s[0] == c);
    lemma_shift(seq![c], rest, 0, false);
    lemma_plain_push(seq![], c);
    assert(seq![].push(c) =~= seq![c]);
    assert(plain_format(seq![]) =~= seq![]);
    if c == '%' {
        assert("%%"@ =~= seq!['%', '%']);
    }
}

proof fn lemma_plain_push(s: Seq<char>, c: char)
    ensures
        plain_format(s.push(c)) == plain_format(s) + if c == '%' {
            seq!['%', '%']
        } else {
            seq![c]
        },
{
    broadcast use Seq::lemma_flatten_push;

    let each = |c: char|
        if c == '%' {
            seq!['%', '%']
        } else {
            seq![c]
        };
    assert(s.push(c).map_values(each) =~= s.map_values(each).push(each(c)));
}

proof fn lemma_quoted(s: Seq<char>, i: int, end: int, text: Seq<char>)
    requires
        0 <= i <= end < s.len(),
        text == s.subrange(i, end),
        forall|k: int| i <= k < end ==> s[k] != '\'',
    ensures
        format_from(s, i, true) == plain_format(text) + format_from(s, end, true),
        short_fraction_from(s, i, true) == short_fraction_from(s, end, true),
    decreases end - i,
{
    reveal_strlit("%%");
    if i == end {
        assert(text =~= seq![]);
        assert(plain_format(text) =~= seq![]);
        assert(plain_format(text) + format_from(s, end, true) =~= format_from(s, end, true));
    } else {
        let less = s.subrange(i, end - 1);
        lemma_quoted(s, i, end - 1, less);
        assert(text =~= less.push(s[end - 1]));
        lemma_plain_push(less, s[end - 1]);
        if s[end - 1] == '%' {
            assert("%%"@ =~= seq!['%', '%']);
        }
        assert(format_from(s, i, true) =~= plain_format(text) + format_from(s, end, true));
    }
}

/// Text in quotes stands for itself, letters and all.
pub proof fn law_quoted_text_is_written(text: Seq<char>, rest: Seq<char>)
    requires
        text.len() > 0,
        !text.contains('\''),
        rest.len() > 0 ==> rest[0] != '\'',
    ensures
        format_from(seq!['\''] + text + seq!['\''] + rest, 0, false) == plain_format(text) + format_from(rest, 0, false),
        short_fraction_from(seq!['\''] + text + seq!['\''] + rest, 0, false) == short_fraction_from(rest, 0, false),
{
    let head = seq!['\''] + text + seq!['\''];
    let s = head + rest;
    let end = text.len() as int + 1;
    assert(s[0] == '\'' && s[1] == text[0] && s[end] == '\'');
    assert(s[1] != '\'') by {
        assert(text.contains(text[0]));
    }
    assert forall|k: int| 1 <= k < end implies s[k] != '\'' by {
        assert(s[k] == text[k - 1]);
        assert(text.contains(text[k - 1]));
    }
    assert(s.subrange(1, end) =~= text);
    lemma_quoted(s, 1, end, text);
    lemma_shift(head, rest, 0, false);
    if rest.len() > 0 {
        assert(s[end + 1] == rest[0]);
    }
    assert(format_from(s, end, true) == format_from(s, end + 1, false));
}

/// Two quotes stand for one.
pub proof fn law_two_quotes_are_one(rest: Seq<char>)
    ensures
        format_from(seq!['\'', '\''] + rest, 0, false) == seq!['\''] + format_from(rest, 0, false),
        short_fraction_from(seq!['\'', '\''] + rest, 0, false) == short_fraction_from(rest, 0, false),
{
    let s = seq!['\'', '\''] + rest;
    assert(s[0] == '\'' && s[1] == '\'');
    lemma_shift(seq!['\'', '\''], rest, 0, false);
}

/// A time is written in its zone by the format of the pattern; a zone is whole
/// seconds away, and what is left of a second never moves it further.
pub proof fn law_time_is_in_its_zone(millis: int, pattern: Seq<char>, seconds: int, part: int)
    requires
        i32::MIN <= seconds <= i32::MAX,
        0 <= part < 1000,
    ensures
        ({
            let text = or_blank(time_text(millis, seconds, format_from(pattern, 0, false)));
            &&& seconds >= 0 ==> time_format(millis, pattern, seconds * 1000 + part) == text
            &&& seconds <= 0 ==> time_format(millis, pattern, seconds * 1000 - part) == text
        }),
{
}

} // verus!
