//! Paths that `jsonpath_lib` aborts on.
//!
//! The crate evaluates filters on a stack of terms and aborts where a term is
//! missing: where a filter holds brackets or a list of keys, and where a literal
//! is compared with a path from the root on its left. It also aborts on a number
//! in a filter that is not finite, and on a range that steps by zero.

use crate::util::chars::{chars_of, is_space, is_space_char};
use vstd::prelude::*;

verus! {

/// How far a number in a filter was read.
#[derive(Clone, Copy, PartialEq, Eq, Structural)]
pub enum NumberScan {
    Off,
    Sign,
    Whole(u8),
    Point,
    Mark,
    MarkSign,
    Exponent(u8),
}

/// How far the step of a range was read.
#[derive(Clone, Copy, PartialEq, Eq, Structural)]
pub enum StepScan {
    Off,
    Start,
    Plus,
    Zero,
}

/// What a scan of a path remembers.
#[derive(Clone, Copy)]
pub struct GuardScan {
    /// The open quote.
    pub quote: Option<char>,
    /// Whether a backslash before the next quote keeps the text open.
    pub fresh: bool,
    /// Whether the character before belongs to a name or a number.
    pub word: bool,
    /// The open parentheses of a filter.
    pub depth: usize,
    /// Whether the operand at hand is a path from the root.
    pub root: bool,
    /// Whether the next operand has to be a path.
    pub owes: bool,
    pub number: NumberScan,
    /// The colons since the bracket that is open; three outside of brackets.
    pub colons: u8,
    pub step: StepScan,
}

/// Where a scan starts.
pub open spec fn guard_start() -> GuardScan {
    GuardScan {
        quote: None,
        fresh: false,
        word: false,
        depth: 0,
        root: false,
        owes: false,
        number: NumberScan::Off,
        colons: 3,
        step: StepScan::Off,
    }
}

pub open spec fn is_number_digit(c: char) -> bool {
    '0' <= c <= '9'
}

/// Whether a character is a token of its own.
pub open spec fn is_path_mark(c: char) -> bool {
    c == '.' || c == '*' || c == '[' || c == ']' || c == '(' || c == ')' || c == '@' || c == '?' || c == ',' || c == ':'
        || c == '<' || c == '>' || c == '=' || c == '&' || c == '|' || c == '!'
}

/// A number of a filter with one more character; `None` where it may be too
/// large to be finite.
pub open spec fn number_with(n: NumberScan, c: char) -> Option<NumberScan> {
    match n {
        NumberScan::Off => Some(NumberScan::Off),
        NumberScan::Point => Some(NumberScan::Off),
        NumberScan::Sign => if is_number_digit(c) {
            Some(NumberScan::Whole(1))
        } else if c == 'i' || c == 'I' || c == 'n' || c == 'N' {
            None
        } else {
            Some(NumberScan::Off)
        },
        NumberScan::Whole(k) => if is_number_digit(c) {
            if k < 200 {
                Some(NumberScan::Whole((k + 1) as u8))
            } else {
                None
            }
        } else if c == 'e' || c == 'E' {
            Some(NumberScan::Mark)
        } else {
            Some(NumberScan::Off)
        },
        NumberScan::Mark => if is_number_digit(c) {
            Some(NumberScan::Exponent(1))
        } else if c == '+' || c == '-' {
            Some(NumberScan::MarkSign)
        } else {
            Some(NumberScan::Off)
        },
        NumberScan::MarkSign => if is_number_digit(c) {
            Some(NumberScan::Exponent(1))
        } else {
            Some(NumberScan::Off)
        },
        NumberScan::Exponent(k) => if is_number_digit(c) {
            if k < 2 {
                Some(NumberScan::Exponent((k + 1) as u8))
            } else {
                None
            }
        } else {
            Some(NumberScan::Off)
        },
    }
}

/// The step of a range with one more character of a word.
pub open spec fn step_with(s: StepScan, c: char) -> StepScan {
    match s {
        StepScan::Off => StepScan::Off,
        StepScan::Start => if c == '0' {
            StepScan::Zero
        } else if c == '+' {
            StepScan::Plus
        } else {
            StepScan::Off
        },
        StepScan::Plus => if c == '0' {
            StepScan::Zero
        } else {
            StepScan::Off
        },
        StepScan::Zero => if c == '0' {
            StepScan::Zero
        } else {
            StepScan::Off
        },
    }
}

/// A scan with one more character of a name or a number; `None` where the path
/// is refused.
pub open spec fn guard_word(p: GuardScan, c: char) -> Option<GuardScan> {
    let step = step_with(p.step, c);
    if p.word {
        match number_with(p.number, c) {
            Some(number) => Some(GuardScan { number, step, ..p }),
            None => None,
        }
    } else if p.owes {
        None
    } else {
        let number = if p.depth == 0 {
            NumberScan::Off
        } else if c == '-' {
            NumberScan::Sign
        } else if is_number_digit(c) {
            NumberScan::Whole(1)
        } else if p.number == NumberScan::Point && (c == 'e' || c == 'E') {
            NumberScan::Mark
        } else {
            NumberScan::Off
        };
        Some(GuardScan { word: true, number, step, ..p })
    }
}

/// A scan outside of filters with one more mark.
pub open spec fn guard_outer(p: GuardScan, before: char, c: char) -> GuardScan {
    let q = GuardScan { word: false, number: NumberScan::Off, step: StepScan::Off, ..p };
    if c == '[' {
        GuardScan { colons: 0, ..q }
    } else if c == ']' {
        GuardScan { colons: 3, ..q }
    } else if c == ':' && p.colons == 0 {
        GuardScan { colons: 1, ..q }
    } else if c == ':' && p.colons < 3 {
        GuardScan { colons: 2, step: StepScan::Start, ..q }
    } else if c == '(' && before == '?' {
        GuardScan { depth: 1, root: false, owes: false, ..q }
    } else {
        q
    }
}

/// A scan within a filter with one more mark; `None` where the path is refused.
pub open spec fn guard_inner(p: GuardScan, c: char) -> Option<GuardScan> {
    let q = GuardScan { word: false, number: NumberScan::Off, step: StepScan::Off, ..p };
    if c == '[' || c == ',' {
        None
    } else if c == '(' {
        Some(GuardScan { depth: (p.depth + 1) as usize, root: false, owes: false, ..q })
    } else if c == ')' {
        Some(GuardScan { depth: (p.depth - 1) as usize, root: false, owes: false, ..q })
    } else if c == '@' || c == '&' || c == '|' {
        Some(GuardScan { root: false, owes: false, ..q })
    } else if c == '=' || c == '<' || c == '>' || c == '!' {
        if p.root {
            Some(GuardScan { root: false, owes: true, ..q })
        } else {
            Some(q)
        }
    } else if p.owes {
        None
    } else if c == '.' && p.number is Whole {
        Some(GuardScan { number: NumberScan::Point, ..q })
    } else {
        Some(q)
    }
}

/// A scan with one more character of a path; `None` where the path is refused.
pub open spec fn guarded(p: GuardScan, before: char, c: char) -> Option<GuardScan> {
    match p.quote {
        Some(q) => if c != q {
            Some(p)
        } else if p.fresh && before == '\\' {
            Some(GuardScan { fresh: false, ..p })
        } else {
            Some(GuardScan { quote: None, ..p })
        },
        None => if !p.word && (c == '\'' || c == '"') {
            if p.owes {
                None
            } else {
                Some(GuardScan { quote: Some(c), fresh: true, root: false, step: StepScan::Off, ..p })
            }
        } else if !is_space(c) && !is_path_mark(c) && c != '$' {
            guard_word(p, c)
        } else if p.step == StepScan::Zero {
            None
        } else if is_space(c) {
            Some(
                GuardScan {
                    word: false,
                    number: NumberScan::Off,
                    step: if p.step == StepScan::Start {
                        StepScan::Start
                    } else {
                        StepScan::Off
                    },
                    ..p
                },
            )
        } else if c == '$' {
            Some(
                GuardScan {
                    word: true,
                    number: NumberScan::Off,
                    step: StepScan::Off,
                    root: p.depth > 0,
                    owes: false,
                    ..p
                },
            )
        } else if p.depth == 0 {
            Some(guard_outer(p, before, c))
        } else {
            guard_inner(p, c)
        },
    }
}

/// Whether a path is refused from position `i` on.
pub open spec fn refused_from(s: Seq<char>, i: int, p: GuardScan) -> bool
    decreases s.len() - i,
{
    if i < 0 || i >= s.len() {
        false
    } else {
        match guarded(p, if i == 0 {
            ' '
        } else {
            s[i - 1]
        }, s[i]) {
            Some(q) => refused_from(s, i + 1, q),
            None => true,
        }
    }
}

/// Whether `jsonpath_lib` may abort on a path.
pub open spec fn may_abort(path: Seq<char>) -> bool {
    refused_from(path, 0, guard_start())
}

pub fn digit_here(c: char) -> (r: bool)
    ensures
        r == is_number_digit(c),
{
    '0' <= c && c <= '9'
}

pub fn mark_here(c: char) -> (r: bool)
    ensures
        r == is_path_mark(c),
{
    c == '.' || c == '*' || c == '[' || c == ']' || c == '(' || c == ')' || c == '@' || c == '?' || c == ',' || c == ':'
        || c == '<' || c == '>' || c == '=' || c == '&' || c == '|' || c == '!'
}

pub fn read_number(n: NumberScan, c: char) -> (r: Option<NumberScan>)
    ensures
        r == number_with(n, c),
{
    let digit = digit_here(c);
    match n {
        NumberScan::Off => Some(NumberScan::Off),
        NumberScan::Point => Some(NumberScan::Off),
        NumberScan::Sign => if digit {
            Some(NumberScan::Whole(1))
        } else if c == 'i' || c == 'I' || c == 'n' || c == 'N' {
            None
        } else {
            Some(NumberScan::Off)
        },
        NumberScan::Whole(k) => if digit {
            if k < 200 {
                Some(NumberScan::Whole(k + 1))
            } else {
                None
            }
        } else if c == 'e' || c == 'E' {
            Some(NumberScan::Mark)
        } else {
            Some(NumberScan::Off)
        },
        NumberScan::Mark => if digit {
            Some(NumberScan::Exponent(1))
        } else if c == '+' || c == '-' {
            Some(NumberScan::MarkSign)
        } else {
            Some(NumberScan::Off)
        },
        NumberScan::MarkSign => if digit {
            Some(NumberScan::Exponent(1))
        } else {
            Some(NumberScan::Off)
        },
        NumberScan::Exponent(k) => if digit {
            if k < 2 {
                Some(NumberScan::Exponent(k + 1))
            } else {
                None
            }
        } else {
            Some(NumberScan::Off)
        },
    }
}

pub fn read_step(s: StepScan, c: char) -> (r: StepScan)
    ensures
        r == step_with(s, c),
{
    match s {
        StepScan::Off => StepScan::Off,
        StepScan::Start => if c == '0' {
            StepScan::Zero
        } else if c == '+' {
            StepScan::Plus
        } else {
            StepScan::Off
        },
        _ => if c == '0' {
            StepScan::Zero
        } else {
            StepScan::Off
        },
    }
}

pub fn read_word(p: GuardScan, c: char) -> (r: Option<GuardScan>)
    ensures
        r == guard_word(p, c),
{
    let step = read_step(p.step, c);
    if p.word {
        return match read_number(p.number, c) {
            Some(number) => Some(GuardScan { number, step, ..p }),
            None => None,
        };
    }
    if p.owes {
        return None;
    }
    let number = if p.depth == 0 {
        NumberScan::Off
    } else if c == '-' {
        NumberScan::Sign
    } else if digit_here(c) {
        NumberScan::Whole(1)
    } else if p.number == NumberScan::Point && (c == 'e' || c == 'E') {
        NumberScan::Mark
    } else {
        NumberScan::Off
    };
    Some(GuardScan { word: true, number, step, ..p })
}

pub fn read_outer(p: GuardScan, before: char, c: char) -> (r: GuardScan)
    ensures
        r == guard_outer(p, before, c),
{
    let q = GuardScan { word: false, number: NumberScan::Off, step: StepScan::Off, ..p };
    if c == '[' {
        GuardScan { colons: 0, ..q }
    } else if c == ']' {
        GuardScan { colons: 3, ..q }
    } else if c == ':' && p.colons == 0 {
        GuardScan { colons: 1, ..q }
    } else if c == ':' && p.colons < 3 {
        GuardScan { colons: 2, step: StepScan::Start, ..q }
    } else if c == '(' && before == '?' {
        GuardScan { depth: 1, root: false, owes: false, ..q }
    } else {
        q
    }
}

pub fn read_inner(p: GuardScan, c: char) -> (r: Option<GuardScan>)
    requires
        0 < p.depth < usize::MAX,
    ensures
        r == guard_inner(p, c),
{
    let q = GuardScan { word: false, number: NumberScan::Off, step: StepScan::Off, ..p };
    let whole = match p.number {
        NumberScan::Whole(_) => true,
        _ => false,
    };
    if c == '[' || c == ',' {
        None
    } else if c == '(' {
        Some(GuardScan { depth: p.depth + 1, root: false, owes: false, ..q })
    } else if c == ')' {
        Some(GuardScan { depth: p.depth - 1, root: false, owes: false, ..q })
    } else if c == '@' || c == '&' || c == '|' {
        Some(GuardScan { root: false, owes: false, ..q })
    } else if c == '=' || c == '<' || c == '>' || c == '!' {
        if p.root {
            Some(GuardScan { root: false, owes: true, ..q })
        } else {
            Some(q)
        }
    } else if p.owes {
        None
    } else if c == '.' && whole {
        Some(GuardScan { number: NumberScan::Point, ..q })
    } else {
        Some(q)
    }
}

/// Reads one more character of a path.
pub fn read_guarded(p: GuardScan, before: char, c: char) -> (r: Option<GuardScan>)
    requires
        p.depth < usize::MAX,
    ensures
        r == guarded(p, before, c),
{
    if let Some(q) = p.quote {
        return if c != q {
            Some(p)
        } else if p.fresh && before == '\\' {
            Some(GuardScan { fresh: false, ..p })
        } else {
            Some(GuardScan { quote: None, ..p })
        };
    }
    if !p.word && (c == '\'' || c == '"') {
        return if p.owes {
            None
        } else {
            Some(GuardScan { quote: Some(c), fresh: true, root: false, step: StepScan::Off, ..p })
        };
    }
    let space = is_space_char(c);
    if !space && !mark_here(c) && c != '$' {
        return read_word(p, c);
    }
    if p.step == StepScan::Zero {
        return None;
    }
    if space {
        let step = if p.step == StepScan::Start {
            StepScan::Start
        } else {
            StepScan::Off
        };
        return Some(GuardScan { word: false, number: NumberScan::Off, step, ..p });
    }
    if c == '$' {
        let root = p.depth > 0;
        return Some(
            GuardScan { word: true, number: NumberScan::Off, step: StepScan::Off, root, owes: false, ..p },
        );
    }
    if p.depth == 0 {
        Some(read_outer(p, before, c))
    } else {
        read_inner(p, c)
    }
}

/// Whether `jsonpath_lib` may abort on a path.
pub fn path_may_abort(path: &str) -> (r: bool)
    ensures
        r == may_abort(path@),
{
    let v = chars_of(path);
    let mut p = GuardScan {
        quote: None,
        fresh: false,
        word: false,
        depth: 0,
        root: false,
        owes: false,
        number: NumberScan::Off,
        colons: 3,
        step: StepScan::Off,
    };
    let mut before = ' ';
    let mut i: usize = 0;
    while i < v.len()
        invariant
            v@ == path@,
            i <= v.len(),
            p.depth <= i,
            before == if i == 0 {
                ' '
            } else {
                path@[i - 1]
            },
            may_abort(path@) == refused_from(path@, i as int, p),
        decreases v.len() - i,
    {
        match read_guarded(p, before, v[i]) {
            Some(q) => {
                p = q;
            },
            None => {
                return true;
            },
        }
        before = v[i];
        i = i + 1;
    }
    false
}

} // verus!
