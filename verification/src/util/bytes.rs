//! Bytes and the texts that they are written as.

use crate::util::chars::{char_code, chars_of, code_of, opt_text};
use vstd::prelude::*;
use vstd::string::*;
use vstd::utf8::{decode_utf8, valid_utf8};

verus! {

/// The text that bytes hold as UTF-8; `None` where they are no UTF-8.
pub open spec fn utf8_of(bytes: Seq<u8>) -> Option<Seq<char>> {
    if valid_utf8(bytes) {
        Some(decode_utf8(bytes))
    } else {
        None
    }
}

/// `str::from_utf8`: the text of bytes that are valid UTF-8.
#[verifier::external_body]
pub fn utf8_text(bytes: &Vec<u8>) -> (r: Option<String>)
    ensures
        opt_text(r) == utf8_of(bytes@),
{
    std::str::from_utf8(bytes).ok().map(|t| t.to_string())
}

/// A digit of a hexadecimal number, in upper or lower case.
pub open spec fn hex_digit(n: int, upper: bool) -> char {
    if n < 10 {
        (n + '0' as int) as u8 as char
    } else if upper {
        (n - 10 + 'A' as int) as u8 as char
    } else {
        (n - 10 + 'a' as int) as u8 as char
    }
}

/// Two hexadecimal digits of a byte.
pub open spec fn hex_byte(n: int, upper: bool) -> Seq<char> {
    seq![hex_digit(n / 16, upper), hex_digit(n % 16, upper)]
}

/// Four hexadecimal digits of a number.
pub open spec fn hex_word(n: int) -> Seq<char> {
    hex_byte(n / 256, true) + hex_byte(n % 256, true)
}

pub fn hex_digit_char(n: u8, upper: bool) -> (r: char)
    requires
        n < 16,
    ensures
        r == hex_digit(n as int, upper),
{
    if n < 10 {
        (n + 48u8) as char
    } else if upper {
        (n - 10 + 65u8) as char
    } else {
        (n - 10 + 97u8) as char
    }
}

pub fn push_hex_byte(out: &mut String, n: u8, upper: bool)
    ensures
        final(out)@ == old(out)@ + hex_byte(n as int, upper),
{
    let ghost base = out@;
    out.push(hex_digit_char(n / 16, upper));
    out.push(hex_digit_char(n % 16, upper));
    assert(out@ =~= base + hex_byte(n as int, upper));
}

pub fn push_hex_word(out: &mut String, n: u16)
    ensures
        final(out)@ == old(out)@ + hex_word(n as int),
{
    let ghost base = out@;
    push_hex_byte(out, (n / 256) as u8, true);
    push_hex_byte(out, (n % 256) as u8, true);
    assert(out@ =~= base + hex_word(n as int));
}

/// Bytes in hexadecimal digits.
pub open spec fn hex_text(b: Seq<u8>) -> Seq<char>
    decreases b.len(),
{
    if b.len() == 0 {
        seq![]
    } else {
        hex_text(b.drop_last()) + hex_byte(b.last() as int, false)
    }
}

pub fn to_hex(bytes: &Vec<u8>) -> (r: String)
    ensures
        r@ == hex_text(bytes@),
{
    let mut r = String::new();
    let mut i: usize = 0;
    assert(bytes@.take(0) =~= seq![]);
    while i < bytes.len()
        invariant
            i <= bytes.len(),
            r@ == hex_text(bytes@.take(i as int)),
        decreases bytes.len() - i,
    {
        push_hex_byte(&mut r, bytes[i], false);
        assert(bytes@.take(i + 1).drop_last() =~= bytes@.take(i as int));
        i = i + 1;
    }
    assert(bytes@.take(bytes.len() as int) =~= bytes@);
    r
}

pub open spec fn is_alphanumeric_byte(b: u8) -> bool {
    0x30 <= b <= 0x39 || 0x41 <= b <= 0x5a || 0x61 <= b <= 0x7a
}

pub fn alphanumeric_byte(b: u8) -> (r: bool)
    ensures
        r == is_alphanumeric_byte(b),
{
    (0x30 <= b && b <= 0x39) || (0x41 <= b && b <= 0x5a) || (0x61 <= b && b <= 0x7a)
}

/// What a byte is written as in a query: itself if it is a letter, a digit or
/// one of `-_.~`, else `%XX`.
pub open spec fn percent_byte(b: u8) -> Seq<char> {
    if is_alphanumeric_byte(b) || b == 0x2d || b == 0x5f || b == 0x2e || b == 0x7e {
        seq![b as char]
    } else {
        seq!['%'] + hex_byte(b as int, true)
    }
}

pub open spec fn percent_of(b: Seq<u8>) -> Seq<char>
    decreases b.len(),
{
    if b.len() == 0 {
        seq![]
    } else {
        percent_of(b.drop_last()) + percent_byte(b.last())
    }
}

/// Writes bytes for a query.
pub fn percent_encode_bytes(bytes: &Vec<u8>) -> (r: String)
    ensures
        r@ == percent_of(bytes@),
{
    let mut r = String::new();
    let mut i: usize = 0;
    assert(bytes@.take(0) =~= seq![]);
    while i < bytes.len()
        invariant
            i <= bytes.len(),
            r@ == percent_of(bytes@.take(i as int)),
        decreases bytes.len() - i,
    {
        let ghost before = r@;
        let b = bytes[i];
        if alphanumeric_byte(b) || b == 0x2d || b == 0x5f || b == 0x2e || b == 0x7e {
            r.push(b as char);
        } else {
            r.push('%');
            push_hex_byte(&mut r, b, true);
        }
        assert(r@ =~= before + percent_byte(b));
        assert(bytes@.take(i + 1).drop_last() =~= bytes@.take(i as int));
        i = i + 1;
    }
    assert(bytes@.take(bytes.len() as int) =~= bytes@);
    r
}

/// What a byte is written as in a form: a blank as `+`, itself if it is a
/// letter, a digit or one of `*-._`, else `%XX`.
pub open spec fn form_byte(b: u8) -> Seq<char> {
    if b == 0x20 {
        seq!['+']
    } else if is_alphanumeric_byte(b) || b == 0x2a || b == 0x2d || b == 0x2e || b == 0x5f {
        seq![b as char]
    } else {
        seq!['%'] + hex_byte(b as int, true)
    }
}

pub open spec fn form_of(b: Seq<u8>) -> Seq<char>
    decreases b.len(),
{
    if b.len() == 0 {
        seq![]
    } else {
        form_of(b.drop_last()) + form_byte(b.last())
    }
}

/// Writes bytes for a form.
pub fn form_encode_bytes(bytes: &Vec<u8>) -> (r: String)
    ensures
        r@ == form_of(bytes@),
{
    let mut r = String::new();
    let mut i: usize = 0;
    assert(bytes@.take(0) =~= seq![]);
    while i < bytes.len()
        invariant
            i <= bytes.len(),
            r@ == form_of(bytes@.take(i as int)),
        decreases bytes.len() - i,
    {
        let ghost before = r@;
        let b = bytes[i];
        if b == 0x20 {
            r.push('+');
        } else if alphanumeric_byte(b) || b == 0x2a || b == 0x2d || b == 0x2e || b == 0x5f {
            r.push(b as char);
        } else {
            r.push('%');
            push_hex_byte(&mut r, b, true);
        }
        assert(r@ =~= before + form_byte(b));
        assert(bytes@.take(i + 1).drop_last() =~= bytes@.take(i as int));
        i = i + 1;
    }
    assert(bytes@.take(bytes.len() as int) =~= bytes@);
    r
}

pub open spec fn is_hex_byte(b: u8) -> bool {
    0x30 <= b <= 0x39 || 0x41 <= b <= 0x46 || 0x61 <= b <= 0x66
}

pub open spec fn hex_byte_value(b: u8) -> int {
    if b <= 0x39 {
        b - 0x30
    } else if b <= 0x46 {
        b - 0x41 + 10
    } else {
        b - 0x61 + 10
    }
}

/// Bytes with every `%XX` replaced by the byte that it writes.
pub open spec fn percent_bytes(b: Seq<u8>) -> Seq<u8>
    decreases b.len(),
{
    if b.len() == 0 {
        seq![]
    } else if b[0] == 0x25 && b.len() >= 3 && is_hex_byte(b[1]) && is_hex_byte(b[2]) {
        seq![(hex_byte_value(b[1]) * 16 + hex_byte_value(b[2])) as u8] + percent_bytes(
            b.subrange(3, b.len() as int),
        )
    } else {
        seq![b[0]] + percent_bytes(b.subrange(1, b.len() as int))
    }
}

/// The UTF-16 code units of a character.
pub open spec fn utf16_of(c: char) -> Seq<int> {
    let n = code_of(c);
    if n < 0x10000 {
        seq![n]
    } else {
        seq![0xD800 + (n - 0x10000) / 0x400, 0xDC00 + (n - 0x10000) % 0x400]
    }
}

/// What a UTF-16 unit is written as by `escape`: itself if it is a letter, a
/// digit or one of `*+-./@_`, else `%XX` or `%uXXXX`.
pub open spec fn escaped_unit(n: int) -> Seq<char> {
    if n <= 0x7f {
        let b = n as u8;
        if is_alphanumeric_byte(b) || b == 0x2a || b == 0x2b || b == 0x2d || b == 0x2e || b == 0x2f || b == 0x40 || b
            == 0x5f {
            seq![b as char]
        } else {
            seq!['%'] + hex_byte(n, true)
        }
    } else {
        seq!['%', 'u'] + hex_word(n)
    }
}

pub open spec fn escaped_char(c: char) -> Seq<char> {
    let u = utf16_of(c);
    if u.len() == 1 {
        escaped_unit(u[0])
    } else {
        escaped_unit(u[0]) + escaped_unit(u[1])
    }
}

pub open spec fn escape_of(s: Seq<char>) -> Seq<char>
    decreases s.len(),
{
    if s.len() == 0 {
        seq![]
    } else {
        escape_of(s.drop_last()) + escaped_char(s.last())
    }
}

pub fn push_escaped(out: &mut String, n: u16)
    ensures
        final(out)@ == old(out)@ + escaped_unit(n as int),
{
    let ghost base = out@;
    if n <= 0x7f {
        let b = n as u8;
        if alphanumeric_byte(b) || b == 0x2a || b == 0x2b || b == 0x2d || b == 0x2e || b == 0x2f || b == 0x40 || b == 0x5f {
            out.push(b as char);
        } else {
            out.push('%');
            push_hex_byte(out, b, true);
        }
    } else {
        out.push('%');
        out.push('u');
        push_hex_word(out, n);
    }
    assert(out@ =~= base + escaped_unit(n as int));
}

/// Writes a text as the script function `escape` does.
pub fn escape_component(value: &str) -> (r: String)
    ensures
        r@ == escape_of(value@),
{
    let v = chars_of(value);
    let mut r = String::new();
    let mut i: usize = 0;
    assert(v@.take(0) =~= seq![]);
    while i < v.len()
        invariant
            v@ == value@,
            i <= v.len(),
            r@ == escape_of(v@.take(i as int)),
        decreases v.len() - i,
    {
        let ghost before = r@;
        let c = v[i];
        let n: u32 = char_code(c);
        if n < 0x10000 {
            push_escaped(&mut r, n as u16);
        } else {
            let m: u32 = n - 0x10000;
            push_escaped(&mut r, (0xD800 + m / 0x400) as u16);
            push_escaped(&mut r, (0xDC00 + m % 0x400) as u16);
        }
        assert(r@ =~= before + escaped_char(c));
        assert(v@.take(i + 1).drop_last() =~= v@.take(i as int));
        i = i + 1;
    }
    assert(v@.take(v.len() as int) =~= v@);
    r
}

} // verus!
