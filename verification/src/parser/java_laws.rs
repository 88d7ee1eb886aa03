//! What the encodings of scripts undo of each other.

use crate::ext::urls::percent_decoded;
use crate::parser::java_codec::{
    at_most, hex_bytes, hex_number, hex_pairs, java_escape_of, java_escaped, nibble, radix_number, stays_unescaped,
    unescape_from, unescaped_code,
};
use crate::util::bytes::{
    form_byte, form_of, hex_byte, hex_byte_value, hex_digit, hex_text, is_alphanumeric_byte, is_hex_byte, percent_byte,
    percent_bytes, percent_of,
};
use crate::util::chars::{char_of_code, code_of, hex_digit_value, hex_value, is_char_code, is_hex_digit};
use vstd::prelude::*;
use vstd::string::*;
use vstd::utf8::{
    encode_utf8, encode_utf8_decode_utf8, encode_utf8_valid_utf8, is_ascii_chars, is_ascii_chars_encode_utf8,
};

verus! {

proof fn lemma_digit(n: int, upper: bool)
    requires
        0 <= n < 16,
    ensures
        nibble(hex_digit(n, upper)) == Some(n),
        is_hex_digit(hex_digit(n, upper)),
        hex_digit_value(hex_digit(n, upper)) == n,
        hex_digit(n, upper) != 'u',
        hex_digit(n, upper) != '+',
        hex_digit(n, upper) != '%',
        (hex_digit(n, upper) as int) < 128,
        is_hex_byte(hex_digit(n, upper) as u8),
        hex_byte_value(hex_digit(n, upper) as u8) == n,
{
}

proof fn lemma_pairs_of_start(s: Seq<char>, t: Seq<char>, n: int)
    requires
        0 <= n,
        2 * n <= s.len(),
    ensures
        hex_pairs(s + t, n) == hex_pairs(s, n),
    decreases n,
{
    if n > 0 {
        lemma_pairs_of_start(s, t, n - 1);
        assert((s + t)[2 * n - 2] == s[2 * n - 2]);
        assert((s + t)[2 * n - 1] == s[2 * n - 1]);
    }
}

proof fn lemma_hex_pairs(b: Seq<u8>)
    ensures
        hex_text(b).len() == 2 * b.len(),
        hex_pairs(hex_text(b), b.len() as int) == Some(b),
    decreases b.len(),
{
    if b.len() > 0 {
        let head = b.drop_last();
        let last = b.last() as int;
        lemma_hex_pairs(head);
        lemma_pairs_of_start(hex_text(head), hex_byte(last, false), head.len() as int);
        lemma_digit(last / 16, false);
        lemma_digit(last % 16, false);
        let s = hex_text(b);
        assert(s[2 * b.len() - 2] == hex_digit(last / 16, false));
        assert(s[2 * b.len() - 1] == hex_digit(last % 16, false));
        assert(head.push(b.last()) =~= b);
    } else {
        assert(b =~= seq![]);
    }
}

/// Bytes that are written in hexadecimal digits are read back.
pub proof fn law_hex_reads_back(b: Seq<u8>)
    ensures
        hex_bytes(hex_text(b)) == b,
{
    lemma_hex_pairs(b);
}

/// The bytes of a text in ASCII.
spec fn ascii_bytes(s: Seq<char>) -> Seq<u8> {
    Seq::new(s.len(), |i: int| s[i] as u8)
}

proof fn lemma_percent_byte(b: u8)
    ensures
        is_ascii_chars(percent_byte(b)),
        percent_byte(b).len() == 1 || percent_byte(b).len() == 3,
{
    lemma_digit(b as int / 16, true);
    lemma_digit(b as int % 16, true);
}

proof fn lemma_percent_ascii(b: Seq<u8>)
    ensures
        is_ascii_chars(percent_of(b)),
    decreases b.len(),
{
    if b.len() > 0 {
        lemma_percent_ascii(b.drop_last());
        lemma_percent_byte(b.last());
    }
}

proof fn lemma_percent_front(b: Seq<u8>)
    requires
        b.len() > 0,
    ensures
        percent_of(b) == percent_byte(b[0]) + percent_of(b.drop_first()),
    decreases b.len(),
{
    if b.len() == 1 {
        assert(b.drop_last() =~= seq![]);
        assert(b.drop_first() =~= seq![]);
        assert(percent_of(b) =~= percent_byte(b[0]) + percent_of(b.drop_first()));
    } else {
        lemma_percent_front(b.drop_last());
        assert(b.drop_last().drop_first() =~= b.drop_first().drop_last());
        assert(b.drop_first().last() == b.last());
        assert(percent_of(b) =~= percent_byte(b[0]) + percent_of(b.drop_first()));
    }
}

proof fn lemma_percent_undone(b: Seq<u8>)
    ensures
        percent_bytes(ascii_bytes(percent_of(b))) == b,
    decreases b.len(),
{
    if b.len() == 0 {
        assert(ascii_bytes(percent_of(b)) =~= seq![]);
        assert(b =~= seq![]);
    } else {
        let c = b[0];
        let rest = b.drop_first();
        lemma_percent_front(b);
        lemma_percent_undone(rest);
        let s = ascii_bytes(percent_of(b));
        let tail = ascii_bytes(percent_of(rest));
        lemma_digit(c as int / 16, true);
        lemma_digit(c as int % 16, true);
        let n = percent_byte(c).len() as int;
        assert(s.subrange(n, s.len() as int) =~= tail);
        assert(s[0] == percent_byte(c)[0] as u8);
        if is_alphanumeric_byte(c) || c == 0x2d || c == 0x5f || c == 0x2e || c == 0x7e {
            assert(percent_byte(c)[0] == c as char);
            assert((c as char) as u8 == c);
            assert(n == 1);
            assert(s[0] == c);
        } else {
            assert(percent_byte(c)[0] == '%');
            assert(percent_byte(c)[1] == hex_digit(c as int / 16, true));
            assert(percent_byte(c)[2] == hex_digit(c as int % 16, true));
            assert(s[1] == hex_digit(c as int / 16, true) as u8);
            assert(s[2] == hex_digit(c as int % 16, true) as u8);
            assert(n == 3);
            assert((c as int / 16) * 16 + c as int % 16 == c as int);
        }
        assert(percent_bytes(s) == seq![c] + rest);
        assert(seq![c] + rest =~= b);
    }
}

/// A text that is written for a URL is read back.
pub proof fn law_percent_reads_back(s: Seq<char>)
    ensures
        percent_decoded(percent_of(encode_utf8(s))) == Some(s),
{
    let b = encode_utf8(s);
    let t = percent_of(b);
    lemma_percent_ascii(b);
    is_ascii_chars_encode_utf8(t);
    assert(encode_utf8(t) =~= ascii_bytes(t));
    lemma_percent_undone(b);
    encode_utf8_valid_utf8(s);
    encode_utf8_decode_utf8(s);
}

/// Bytes that are written for a URL are read back, whatever they encode; they
/// are written in ASCII and without any of the marks that part a URL.
pub proof fn law_percent_bytes_read_back(b: Seq<u8>)
    ensures
        percent_bytes(encode_utf8(percent_of(b))) == b,
        forall|i: int|
            0 <= i < percent_of(b).len() ==> #[trigger] percent_of(b)[i] != '&' && percent_of(b)[i] != '=' && percent_of(
                b,
            )[i] != '#' && percent_of(b)[i] != '?' && percent_of(b)[i] != '/' && percent_of(b)[i] != '{',
{
    let t = percent_of(b);
    lemma_percent_ascii(b);
    is_ascii_chars_encode_utf8(t);
    assert(encode_utf8(t) =~= ascii_bytes(t));
    lemma_percent_undone(b);
    lemma_percent_marks(b);
}

proof fn lemma_percent_marks(b: Seq<u8>)
    ensures
        forall|i: int|
            0 <= i < percent_of(b).len() ==> #[trigger] percent_of(b)[i] != '&' && percent_of(b)[i] != '=' && percent_of(
                b,
            )[i] != '#' && percent_of(b)[i] != '?' && percent_of(b)[i] != '/' && percent_of(b)[i] != '{',
    decreases b.len(),
{
    if b.len() > 0 {
        lemma_percent_marks(b.drop_last());
        let c = b.last();
        let n = percent_of(b.drop_last()).len() as int;
        lemma_digit(c as int / 16, true);
        lemma_digit(c as int % 16, true);
        assert forall|i: int| 0 <= i < percent_of(b).len() implies #[trigger] percent_of(b)[i] != '&' && percent_of(b)[i]
            != '=' && percent_of(b)[i] != '#' && percent_of(b)[i] != '?' && percent_of(b)[i] != '/' && percent_of(b)[i] != '{' by {
            if i < n {
                assert(percent_of(b)[i] == percent_of(b.drop_last())[i]);
            } else {
                assert(percent_of(b)[i] == percent_byte(c)[i - n]);
            }
        }
    }
}

/// The bytes of a form with its signs for blanks taken back.
pub open spec fn blanks_back(b: Seq<u8>) -> Seq<u8> {
    Seq::new(
        b.len(),
        |i: int|
            if b[i] == 0x2b {
                0x20u8
            } else {
                b[i]
            },
    )
}

proof fn lemma_form_front(b: Seq<u8>)
    requires
        b.len() > 0,
    ensures
        form_of(b) == form_byte(b[0]) + form_of(b.drop_first()),
    decreases b.len(),
{
    if b.len() == 1 {
        assert(b.drop_last() =~= seq![]);
        assert(b.drop_first() =~= seq![]);
        assert(form_of(b) =~= form_byte(b[0]) + form_of(b.drop_first()));
    } else {
        lemma_form_front(b.drop_last());
        assert(b.drop_last().drop_first() =~= b.drop_first().drop_last());
        assert(b.drop_first().last() == b.last());
        assert(form_of(b) =~= form_byte(b[0]) + form_of(b.drop_first()));
    }
}

proof fn lemma_form_marks(b: Seq<u8>)
    ensures
        is_ascii_chars(form_of(b)),
        forall|i: int| 0 <= i < form_of(b).len() ==> #[trigger] form_of(b)[i] != '&' && form_of(b)[i] != '=',
    decreases b.len(),
{
    if b.len() > 0 {
        lemma_form_marks(b.drop_last());
        let c = b.last();
        let n = form_of(b.drop_last()).len() as int;
        lemma_digit(c as int / 16, true);
        lemma_digit(c as int % 16, true);
        assert forall|i: int| 0 <= i < form_of(b).len() implies #[trigger] form_of(b)[i] != '&' && form_of(b)[i] != '='
            && (form_of(b)[i] as int) < 128 by {
            if i < n {
                assert(form_of(b)[i] == form_of(b.drop_last())[i]);
            } else {
                assert(form_of(b)[i] == form_byte(c)[i - n]);
            }
        }
    }
}

proof fn lemma_form_undone(b: Seq<u8>)
    ensures
        percent_bytes(blanks_back(ascii_bytes(form_of(b)))) == b,
    decreases b.len(),
{
    if b.len() == 0 {
        assert(blanks_back(ascii_bytes(form_of(b))) =~= seq![]);
        assert(b =~= seq![]);
    } else {
        let c = b[0];
        let rest = b.drop_first();
        lemma_form_front(b);
        lemma_form_undone(rest);
        let s = blanks_back(ascii_bytes(form_of(b)));
        let tail = blanks_back(ascii_bytes(form_of(rest)));
        lemma_digit(c as int / 16, true);
        lemma_digit(c as int % 16, true);
        let n = form_byte(c).len() as int;
        assert(s.subrange(n, s.len() as int) =~= tail);
        if c == 0x20 {
            assert(form_byte(c)[0] == '+');
            assert(s[0] == 0x20);
        } else if is_alphanumeric_byte(c) || c == 0x2a || c == 0x2d || c == 0x2e || c == 0x5f {
            assert(form_byte(c)[0] == c as char);
            assert((c as char) as u8 == c);
            assert(s[0] == c);
        } else {
            assert(form_byte(c)[0] == '%');
            assert(form_byte(c)[1] == hex_digit(c as int / 16, true));
            assert(form_byte(c)[2] == hex_digit(c as int % 16, true));
            assert(s[0] == 0x25);
            assert(s[1] == hex_digit(c as int / 16, true) as u8);
            assert(s[2] == hex_digit(c as int % 16, true) as u8);
            assert((c as int / 16) * 16 + c as int % 16 == c as int);
        }
        assert(percent_bytes(s) == seq![c] + rest);
        assert(seq![c] + rest =~= b);
    }
}

/// Bytes that are written for a form are read back, whatever they encode, and
/// are written without the marks that part a form.
pub proof fn law_form_bytes_read_back(b: Seq<u8>)
    ensures
        percent_bytes(blanks_back(encode_utf8(form_of(b)))) == b,
        forall|i: int| 0 <= i < form_of(b).len() ==> #[trigger] form_of(b)[i] != '&' && form_of(b)[i] != '=',
{
    let t = form_of(b);
    lemma_form_marks(b);
    is_ascii_chars_encode_utf8(t);
    assert(encode_utf8(t) =~= ascii_bytes(t));
    lemma_form_undone(b);
}

proof fn lemma_escape_front(s: Seq<char>, n: int)
    requires
        0 < n <= s.len(),
    ensures
        java_escape_of(s, n) == java_escaped(s[0]) + java_escape_of(s.drop_first(), n - 1),
    decreases n,
{
    if n == 1 {
        assert(java_escape_of(s, 0) =~= seq![]);
        assert(java_escape_of(s.drop_first(), 0) =~= seq![]);
        assert(java_escape_of(s, n) =~= java_escaped(s[0]) + java_escape_of(s.drop_first(), n - 1));
    } else {
        lemma_escape_front(s, n - 1);
        assert(s.drop_first()[n - 2] == s[n - 1]);
        assert(java_escape_of(s, n) =~= java_escaped(s[0]) + java_escape_of(s.drop_first(), n - 1));
    }
}

proof fn lemma_unescape_shift(a: Seq<char>, b: Seq<char>, j: int)
    requires
        0 <= j <= b.len(),
    ensures
        unescape_from(a + b, a.len() + j) == unescape_from(b, j),
    decreases b.len() - j,
{
    let s = a + b;
    let i = a.len() + j;
    if j < b.len() {
        assert(s[i] == b[j]);
        if b[j] != '%' {
            lemma_unescape_shift(a, b, j + 1);
        } else {
            if j + 1 < b.len() {
                assert(s[i + 1] == b[j + 1]);
            }
            if j + 1 < b.len() && b[j + 1] == 'u' {
                let end = at_most(j + 6, b.len() as int);
                assert(at_most(i + 6, s.len() as int) == a.len() + end);
                assert(s.subrange(i + 2, a.len() + end) =~= b.subrange(j + 2, end));
                lemma_unescape_shift(a, b, end);
            } else {
                let end = at_most(j + 3, b.len() as int);
                assert(at_most(i + 3, s.len() as int) == a.len() + end);
                assert(s.subrange(i + 1, a.len() + end) =~= b.subrange(j + 1, end));
                lemma_unescape_shift(a, b, end);
            }
        }
    }
}

proof fn lemma_two_digits(n: int)
    requires
        0 <= n < 256,
    ensures
        radix_number(hex_byte(n, true)) == Some(n),
{
    lemma_digit(n / 16, true);
    lemma_digit(n % 16, true);
    let s = hex_byte(n, true);
    assert(s[0] == hex_digit(n / 16, true) && s[1] == hex_digit(n % 16, true));
    reveal_with_fuel(hex_value, 3);
    assert(s.drop_last().drop_last() =~= seq![]);
    assert(hex_value(s) == n);
}

proof fn lemma_four_digits(n: int)
    requires
        256 <= n < 0x10000,
    ensures
        hex_number(n, 4).len() == 4,
        radix_number(hex_number(n, 4)) == Some(n),
{
    reveal_with_fuel(hex_number, 5);
    let a = n / 16 / 16 / 16;
    let b = n / 16 / 16 % 16;
    let c = n / 16 % 16;
    let d = n % 16;
    lemma_digit(a, true);
    lemma_digit(b, true);
    lemma_digit(c, true);
    lemma_digit(d, true);
    let s = hex_number(n, 4);
    assert(s =~= seq![hex_digit(a, true), hex_digit(b, true), hex_digit(c, true), hex_digit(d, true)]);
    reveal_with_fuel(hex_value, 5);
    assert(s.drop_last() =~= seq![hex_digit(a, true), hex_digit(b, true), hex_digit(c, true)]);
    assert(s.drop_last().drop_last() =~= seq![hex_digit(a, true), hex_digit(b, true)]);
    assert(s.drop_last().drop_last().drop_last() =~= seq![hex_digit(a, true)]);
    assert(s.drop_last().drop_last().drop_last().drop_last() =~= seq![]);
    assert(hex_value(s) == ((a * 16 + b) * 16 + c) * 16 + d);
}

proof fn lemma_char_of_its_code(c: char)
    ensures
        is_char_code(code_of(c)),
        char_of_code(code_of(c)) == c,
{
    assert(code_of(char_of_code(code_of(c))) == code_of(c));
}

proof fn lemma_first_undone(c: char, rest: Seq<char>)
    requires
        code_of(c) < 0x10000,
    ensures
        unescape_from(java_escaped(c) + rest, 0) == seq![c] + unescape_from(rest, 0),
{
    let e = java_escaped(c);
    let s = e + rest;
    let n = code_of(c);
    lemma_char_of_its_code(c);
    lemma_unescape_shift(e, rest, 0);
    reveal_strlit("%");
    reveal_strlit("%u");
    if stays_unescaped(c) {
        assert(s[0] == c && c != '%');
        assert(unescape_from(s, 0) == seq![c] + unescape_from(s, 1));
    } else if n < 256 {
        lemma_digit(n / 16, true);
        lemma_digit(n % 16, true);
        lemma_two_digits(n);
        assert(e.len() == 3);
        assert(s[0] == '%' && s[1] == hex_digit(n / 16, true));
        assert(at_most(3, s.len() as int) == 3);
        assert(s.subrange(1, 3) =~= hex_byte(n, true));
        assert(unescaped_code("%"@, s.subrange(1, 3), 255) == seq![c]);
    } else {
        lemma_four_digits(n);
        assert(e.len() == 6);
        assert(s[0] == '%' && s[1] == 'u');
        assert(at_most(6, s.len() as int) == 6);
        assert(s.subrange(2, 6) =~= hex_number(n, 4));
        assert(unescaped_code("%u"@, s.subrange(2, 6), 0xffffffff) == seq![c]);
    }
}

/// A text of characters below the supplementary planes that is escaped is read
/// back.
pub proof fn law_escape_reads_back(s: Seq<char>)
    requires
        forall|i: int| 0 <= i < s.len() ==> code_of(#[trigger] s[i]) < 0x10000,
    ensures
        unescape_from(java_escape_of(s, s.len() as int), 0) == s,
    decreases s.len(),
{
    if s.len() == 0 {
        assert(s =~= seq![]);
    } else {
        let rest = s.drop_first();
        lemma_escape_front(s, s.len() as int);
        law_escape_reads_back(rest);
        lemma_first_undone(s[0], java_escape_of(rest, rest.len() as int));
        assert(seq![s[0]] + rest =~= s);
    }
}

} // verus!
