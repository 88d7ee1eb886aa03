//! Java's date patterns.

use crate::ext::time::{directive_len, format_time, is_format_from, time_text};
use crate::parser::field::{or_blank, text_or_blank};
use crate::util::chars::{chars_of, is_ascii_letter, is_ascii_letter_char};
use vstd::prelude::*;
use vstd::string::*;

verus! {

/// The end of the run of a character.
pub open spec fn run_end(s: Seq<char>, i: int, c: char) -> int
    decreases s.len() - i,
{
    if 0 <= i < s.len() && s[i] == c {
        run_end(s, i + 1, c)
    } else {
        i
    }
}

/// A character so many times.
pub open spec fn repeated(c: char, n: int) -> Seq<char> {
    Seq::new(n as nat, |i: int| c)
}

/// The directive for a run of a letter; letters without one stand for themselves.
pub open spec fn directive(c: char, width: int) -> Seq<char> {
    match c {
        'y' => if width == 2 {
            "%y"@
        } else {
            "%Y"@
        },
        'M' => if width == 1 {
            "%-m"@
        } else if width == 2 {
            "%m"@
        } else if width == 3 {
            "%b"@
        } else {
            "%B"@
        },
        'd' => if width == 1 {
            "%-d"@
        } else {
            "%d"@
        },
        'H' => if width == 1 {
            "%-H"@
        } else {
            "%H"@
        },
        'h' => if width == 1 {
            "%-I"@
        } else {
            "%I"@
        },
        'm' => if width == 1 {
            "%-M"@
        } else {
            "%M"@
        },
        's' => if width == 1 {
            "%-S"@
        } else {
            "%S"@
        },
        'S' => if width == 1 {
            "%1f"@
        } else if width == 2 {
            "%2f"@
        } else {
            "%3f"@
        },
        'a' => "%p"@,
        'E' => if width <= 3 {
            "%a"@
        } else {
            "%A"@
        },
        'u' => "%u"@,
        'Z' => "%z"@,
        'X' => if width >= 3 {
            "%:z"@
        } else {
            "%z"@
        },
        _ => repeated(c, width),
    }
}

/// A pattern from `i` on, as a format: text in quotes stands for itself, two
/// quotes for one, and runs of letters for their directive.
pub open spec fn format_from(s: Seq<char>, i: int, quoted: bool) -> Seq<char>
    decreases s.len() - i,
{
    if i < 0 || i >= s.len() {
        seq![]
    } else if s[i] == '\'' {
        if i + 1 < s.len() && s[i + 1] == '\'' {
            seq!['\''] + format_from(s, i + 2, quoted)
        } else {
            format_from(s, i + 1, !quoted)
        }
    } else if quoted || !is_ascii_letter(s[i]) {
        (if s[i] == '%' {
            "%%"@
        } else {
            seq![s[i]]
        }) + format_from(s, i + 1, quoted)
    } else {
        let end = run_end(s, i + 1, s[i]);
        if i < end <= s.len() {
            directive(s[i], end - i) + format_from(s, end, false)
        } else {
            seq![]
        }
    }
}

proof fn lemma_run_end(s: Seq<char>, i: int, c: char)
    requires
        0 <= i <= s.len(),
    ensures
        i <= run_end(s, i, c) <= s.len(),
    decreases s.len() - i,
{
    if i < s.len() && s[i] == c {
        lemma_run_end(s, i + 1, c);
    }
}

pub fn directive_of(c: char, width: usize) -> (r: Option<&'static str>)
    ensures
        match r {
            Some(t) => t@ == directive(c, width as int),
            None => directive(c, width as int) == repeated(c, width as int),
        },
{
    if c == 'y' {
        Some(
            if width == 2 {
                "%y"
            } else {
                "%Y"
            },
        )
    } else if c == 'M' {
        Some(
            if width == 1 {
                "%-m"
            } else if width == 2 {
                "%m"
            } else if width == 3 {
                "%b"
            } else {
                "%B"
            },
        )
    } else if c == 'd' {
        Some(
            if width == 1 {
                "%-d"
            } else {
                "%d"
            },
        )
    } else if c == 'H' {
        Some(
            if width == 1 {
                "%-H"
            } else {
                "%H"
            },
        )
    } else if c == 'h' {
        Some(
            if width == 1 {
                "%-I"
            } else {
                "%I"
            },
        )
    } else if c == 'm' {
        Some(
            if width == 1 {
                "%-M"
            } else {
                "%M"
            },
        )
    } else if c == 's' {
        Some(
            if width == 1 {
                "%-S"
            } else {
                "%S"
            },
        )
    } else if c == 'S' {
        Some(
            if width == 1 {
                "%1f"
            } else if width == 2 {
                "%2f"
            } else {
                "%3f"
            },
        )
    } else if c == 'a' {
        Some("%p")
    } else if c == 'E' {
        Some(
            if width <= 3 {
                "%a"
            } else {
                "%A"
            },
        )
    } else if c == 'u' {
        Some("%u")
    } else if c == 'Z' {
        Some("%z")
    } else if c == 'X' {
        Some(
            if width >= 3 {
                "%:z"
            } else {
                "%z"
            },
        )
    } else {
        None
    }
}

/// Writes a pattern of Java as a format of `chrono`.
pub fn java_date_pattern_to_chrono(pattern: &str) -> (r: String)
    ensures
        r@ == format_from(pattern@, 0, false),
{
    let v = chars_of(pattern);
    let ghost s = pattern@;
    let ghost goal = format_from(s, 0, false);
    let mut out = String::new();
    let mut i: usize = 0;
    let mut quoted = false;
    assert(goal =~= out@ + format_from(s, 0, false));
    while i < v.len()
        invariant
            v@ == s,
            s == pattern@,
            i <= v.len(),
            goal == out@ + format_from(s, i as int, quoted),
        decreases v.len() - i,
    {
        let c = v[i];
        let ghost before = out@;
        if c == '\'' {
            if i + 1 < v.len() && v[i + 1] == '\'' {
                out.push('\'');
                assert(out@ + format_from(s, i + 2, quoted) =~= before + (seq!['\''] + format_from(s, i + 2, quoted)));
                i = i + 2;
            } else {
                quoted = !quoted;
                i = i + 1;
            }
        } else if quoted || !is_ascii_letter_char(c) {
            if c == '%' {
                out.append("%%");
                assert(out@ + format_from(s, i + 1, quoted) =~= before + ("%%"@ + format_from(s, i + 1, quoted)));
            } else {
                out.push(c);
                assert(out@ + format_from(s, i + 1, quoted) =~= before + (seq![c] + format_from(s, i + 1, quoted)));
            }
            i = i + 1;
        } else {
            let mut end: usize = i + 1;
            while end < v.len() && v[end] == c
                invariant
                    v@ == s,
                    i < end <= v.len(),
                    run_end(s, i + 1, c) == run_end(s, end as int, c),
                decreases v.len() - end,
            {
                end = end + 1;
            }
            assert(end == run_end(s, i + 1, c));
            let width: usize = end - i;
            match directive_of(c, width) {
                Some(t) => {
                    out.append(t);
                },
                None => {
                    let mut k: usize = 0;
                    assert(out@ =~= before + repeated(c, 0));
                    while k < width
                        invariant
                            k <= width,
                            out@ == before + repeated(c, k as int),
                        decreases width - k,
                    {
                        out.push(c);
                        assert(before + repeated(c, k + 1) =~= (before + repeated(c, k as int)).push(c));
                        k = k + 1;
                    }
                },
            }
            assert(out@ =~= before + directive(c, width as int));
            assert(out@ + format_from(s, end as int, false) =~= before + (directive(c, width as int) + format_from(
                s,
                end as int,
                false,
            )));
            i = end;
        }
    }
    assert(out@ + format_from(s, i as int, quoted) =~= out@);
    out
}

/// Whether a pattern asks, from `i` on, for a fraction of fewer than three
/// digits, which cannot be written.
pub open spec fn short_fraction_from(s: Seq<char>, i: int, quoted: bool) -> bool
    decreases s.len() - i,
{
    if i < 0 || i >= s.len() {
        false
    } else if s[i] == '\'' {
        if i + 1 < s.len() && s[i + 1] == '\'' {
            short_fraction_from(s, i + 2, quoted)
        } else {
            short_fraction_from(s, i + 1, !quoted)
        }
    } else if quoted || !is_ascii_letter(s[i]) {
        short_fraction_from(s, i + 1, quoted)
    } else {
        let end = run_end(s, i + 1, s[i]);
        (s[i] == 'S' && end - i < 3) || (i < end <= s.len() && short_fraction_from(s, end, false))
    }
}

proof fn lemma_format_shift(a: Seq<char>, b: Seq<char>, j: int)
    requires
        0 <= j <= b.len(),
    ensures
        is_format_from(a + b, a.len() + j) == is_format_from(b, j),
    decreases b.len() - j,
{
    let s = a + b;
    if j < b.len() {
        assert(s[a.len() + j] == b[j]);
        if b[j] != '%' {
            lemma_format_shift(a, b, j + 1);
        } else {
            if j + 1 < b.len() {
                assert(s[a.len() + j + 1] == b[j + 1]);
            }
            if j + 2 < b.len() {
                assert(s[a.len() + j + 2] == b[j + 2]);
            }
            assert(directive_len(s, a.len() + j + 1) == directive_len(b, j + 1));
            match directive_len(b, j + 1) {
                Some(n) => lemma_format_shift(a, b, j + 1 + n),
                None => {},
            }
        }
    }
}

proof fn lemma_format_join(a: Seq<char>, b: Seq<char>, i: int)
    requires
        0 <= i <= a.len(),
        is_format_from(a, i),
        is_format_from(b, 0),
    ensures
        is_format_from(a + b, i),
    decreases a.len() - i,
{
    let s = a + b;
    if i == a.len() {
        lemma_format_shift(a, b, 0);
    } else {
        assert(s[i] == a[i]);
        if a[i] != '%' {
            lemma_format_join(a, b, i + 1);
        } else {
            let n = directive_len(a, i + 1)->0;
            assert(s[i + 1] == a[i + 1]);
            if n == 2 {
                assert(s[i + 2] == a[i + 2]);
            }
            assert(directive_len(s, i + 1) == Some(n));
            lemma_format_join(a, b, i + 1 + n);
        }
    }
}

proof fn lemma_plain_format(s: Seq<char>, i: int)
    requires
        0 <= i <= s.len(),
        forall|k: int| 0 <= k < s.len() ==> s[k] != '%',
    ensures
        is_format_from(s, i),
    decreases s.len() - i,
{
    if i < s.len() {
        lemma_plain_format(s, i + 1);
    }
}

proof fn lemma_two(s: Seq<char>, c: char)
    requires
        s.len() == 2,
        s[0] == '%',
        s[1] == c,
        "yYmbBdHIMSpaAuz%"@.contains(c),
    ensures
        is_format_from(s, 0),
{
    assert(directive_len(s, 1) == Some(1int));
    assert(is_format_from(s, 2));
}

proof fn lemma_three(s: Seq<char>, c: char, d: char)
    requires
        s.len() == 3,
        s[0] == '%',
        s[1] == c,
        s[2] == d,
        !"yYmbBdHIMSpaAuz%"@.contains(c),
        (c == '-' && "mdHIMS"@.contains(d)) || (c == '3' && d == 'f') || (c == ':' && d == 'z'),
    ensures
        is_format_from(s, 0),
{
    assert(directive_len(s, 1) == Some(2int));
    assert(is_format_from(s, 3));
}

proof fn lemma_directive(c: char, width: int)
    requires
        width >= 1,
        c != '%',
        !(c == 'S' && width < 3),
    ensures
        is_format_from(directive(c, width), 0),
{
    reveal_strlit("yYmbBdHIMSpaAuz%");
    reveal_strlit("mdHIMS");
    reveal_strlit("%y");
    reveal_strlit("%Y");
    reveal_strlit("%-m");
    reveal_strlit("%m");
    reveal_strlit("%b");
    reveal_strlit("%B");
    reveal_strlit("%-d");
    reveal_strlit("%d");
    reveal_strlit("%-H");
    reveal_strlit("%H");
    reveal_strlit("%-I");
    reveal_strlit("%I");
    reveal_strlit("%-M");
    reveal_strlit("%M");
    reveal_strlit("%-S");
    reveal_strlit("%S");
    reveal_strlit("%3f");
    reveal_strlit("%p");
    reveal_strlit("%a");
    reveal_strlit("%A");
    reveal_strlit("%u");
    reveal_strlit("%z");
    reveal_strlit("%:z");
    let known = "yYmbBdHIMSpaAuz%"@;
    let short = "mdHIMS"@;
    assert(known[0] == 'y' && known[1] == 'Y' && known[2] == 'm' && known[3] == 'b' && known[4] == 'B' && known[5] == 'd'
        && known[6] == 'H' && known[7] == 'I' && known[8] == 'M' && known[9] == 'S' && known[10] == 'p' && known[11] == 'a'
        && known[12] == 'A' && known[13] == 'u' && known[14] == 'z' && known[15] == '%');
    assert(short[0] == 'm' && short[1] == 'd' && short[2] == 'H' && short[3] == 'I' && short[4] == 'M' && short[5] == 'S');
    let s = directive(c, width);
    if c == 'y' || c == 'a' || c == 'E' || c == 'u' || c == 'Z' {
        lemma_two(s, s[1]);
    } else if c == 'M' {
        if width == 1 {
            lemma_three(s, '-', 'm');
        } else {
            lemma_two(s, s[1]);
        }
    } else if c == 'd' || c == 'H' || c == 'h' || c == 'm' || c == 's' {
        if width == 1 {
            lemma_three(s, '-', s[2]);
        } else {
            lemma_two(s, s[1]);
        }
    } else if c == 'S' {
        lemma_three(s, '3', 'f');
    } else if c == 'X' {
        if width >= 3 {
            lemma_three(s, ':', 'z');
        } else {
            lemma_two(s, 'z');
        }
    } else {
        lemma_plain_format(s, 0);
    }
}

/// A pattern without a short fraction is written as a format that `chrono` knows.
pub proof fn law_pattern_is_format(s: Seq<char>, i: int, quoted: bool)
    requires
        0 <= i,
        !short_fraction_from(s, i, quoted),
    ensures
        is_format_from(format_from(s, i, quoted), 0),
    decreases s.len() - i,
{
    if i < s.len() {
        if s[i] == '\'' {
            if i + 1 < s.len() && s[i + 1] == '\'' {
                law_pattern_is_format(s, i + 2, quoted);
                lemma_plain_format(seq!['\''], 0);
                lemma_format_join(seq!['\''], format_from(s, i + 2, quoted), 0);
            } else {
                law_pattern_is_format(s, i + 1, !quoted);
            }
        } else if quoted || !is_ascii_letter(s[i]) {
            law_pattern_is_format(s, i + 1, quoted);
            if s[i] == '%' {
                reveal_strlit("%%");
                reveal_strlit("yYmbBdHIMSpaAuz%");
                let known = "yYmbBdHIMSpaAuz%"@;
                assert(known[15] == '%');
                lemma_two("%%"@, '%');
                lemma_format_join("%%"@, format_from(s, i + 1, quoted), 0);
            } else {
                lemma_plain_format(seq![s[i]], 0);
                lemma_format_join(seq![s[i]], format_from(s, i + 1, quoted), 0);
            }
        } else {
            let end = run_end(s, i + 1, s[i]);
            lemma_run_end(s, i + 1, s[i]);
            lemma_directive(s[i], end - i);
            law_pattern_is_format(s, end, false);
            lemma_format_join(directive(s[i], end - i), format_from(s, end, false), 0);
        }
    }
}

/// Tells whether a pattern asks for a fraction of fewer than three digits.
pub fn has_short_fraction(pattern: &str) -> (r: bool)
    ensures
        r == short_fraction_from(pattern@, 0, false),
{
    let v = chars_of(pattern);
    let ghost s = pattern@;
    let mut i: usize = 0;
    let mut quoted = false;
    while i < v.len()
        invariant
            v@ == s,
            s == pattern@,
            i <= v.len(),
            short_fraction_from(s, 0, false) == short_fraction_from(s, i as int, quoted),
        decreases v.len() - i,
    {
        let c = v[i];
        if c == '\'' {
            if i + 1 < v.len() && v[i + 1] == '\'' {
                i = i + 2;
            } else {
                quoted = !quoted;
                i = i + 1;
            }
        } else if quoted || !is_ascii_letter_char(c) {
            i = i + 1;
        } else {
            let mut end: usize = i + 1;
            while end < v.len() && v[end] == c
                invariant
                    v@ == s,
                    i < end <= v.len(),
                    run_end(s, i + 1, c) == run_end(s, end as int, c),
                decreases v.len() - end,
            {
                end = end + 1;
            }
            assert(end == run_end(s, i + 1, c));
            if c == 'S' && end - i < 3 {
                return true;
            }
            i = end;
        }
    }
    false
}

/// The text of a time in a zone, by a pattern of Java; empty where the time or
/// the zone is out of range.
pub open spec fn time_format(millis: int, pattern: Seq<char>, offset_ms: int) -> Seq<char> {
    let seconds = seconds_of(offset_ms);
    if i32::MIN <= seconds <= i32::MAX {
        or_blank(time_text(millis, seconds, format_from(pattern, 0, false)))
    } else {
        seq![]
    }
}

/// Milliseconds in whole seconds, towards zero.
pub open spec fn seconds_of(ms: int) -> int {
    if ms >= 0 {
        ms / 1000
    } else {
        -((-ms) / 1000)
    }
}

/// Writes a time in a zone by a pattern of Java.
pub fn java_time_format_utc(timestamp_ms: i64, pattern: &str, offset_ms: i64) -> (r: String)
    requires
        !short_fraction_from(pattern@, 0, false),
    ensures
        r@ == time_format(timestamp_ms as int, pattern@, offset_ms as int),
{
    let seconds: i128 = if offset_ms >= 0 {
        offset_ms as i128 / 1000
    } else {
        -((-(offset_ms as i128)) / 1000)
    };
    if seconds < -2147483648 || seconds > 2147483647 {
        let r = String::new();
        assert(r@ =~= seq![]);
        return r;
    }
    let format = java_date_pattern_to_chrono(pattern);
    proof {
        law_pattern_is_format(pattern@, 0, false);
    }
    text_or_blank(format_time(timestamp_ms, seconds as i32, format.as_str()))
}

/// A time in seconds: numbers beyond the year 33658 are milliseconds.
pub fn time_in_seconds(timestamp: i64) -> (r: i64)
    ensures
        r == if timestamp > 1000000000000 {
            timestamp as int / 1000
        } else {
            timestamp as int
        },
{
    if timestamp > 1000000000000 {
        timestamp / 1000
    } else {
        timestamp
    }
}

} // verus!
