//! The encodings, ciphers and digests that scripts call through `java`.

use crate::crawler::url_rule::same_name;
use crate::ext::codec::{
    decode_text, decoded_as, encode_text, encoded_as, encoding_for_label, encoding_of, is_marked, lossy_text,
    read_lossy,
};
use crate::ext::crypto::{
    aes_decrypt, aes_decrypted, aes_encrypt, aes_encrypted, base64_decode, base64_encode, base64_of, base64_read,
    gunzip, gzip, gzip_of, gzip_text, hmac_of, hmac_sign, md5_hex, md5_of, opt_bytes,
};
use crate::ext::json::{
    integer_text, json_integer, json_models, json_of, json_text_of, json_to_text, lemma_array_model, member_of,
    parse_json, Json, JsonV,
};
use crate::ext::urls::{percent_decode, percent_decoded, percent_encode};
use crate::parser::field::{or_blank, text_or_blank};
use crate::util::bytes::{
    hex_byte, hex_digit, hex_digit_char, hex_text, percent_encode_bytes, percent_of, push_hex_byte, to_hex, utf8_of,
    utf8_text,
};
use crate::util::chars::{
    all_digits, char_code, char_of_code, chars_of, code_of, decimal_of, digits_value, eq_ignore_ascii_case, hex_of,
    is_ascii_letter, is_ascii_letter_char, is_char_code, is_digit, is_digit_char, is_space, is_space_char, opt_str,
    parse_hex, parse_i64, parse_unsigned, same, signed_of, string_range, substring, trim, trim_of, unsigned_of, within,
};
use vstd::prelude::*;
use vstd::string::*;
use vstd::utf8::{encode_utf8, encode_utf8_decode_utf8, encode_utf8_valid_utf8};

verus! {

/// The label of the encoding that a script asks for; UTF-8 where it is none.
pub open spec fn charset_label(charset: Option<Seq<char>>) -> Seq<char> {
    match charset {
        Some(l) => if encoding_of(trim_of(l)) is Some {
            trim_of(l)
        } else {
            "UTF-8"@
        },
        None => "UTF-8"@,
    }
}

pub fn find_charset(charset: Option<&str>) -> (r: String)
    ensures
        r@ == charset_label(opt_str(charset)),
        encoding_of(r@) is Some,
        r@ == "UTF-8"@ ==> encoding_of(r@) == Some("UTF-8"@),
{
    if let Some(l) = charset {
        let t = trim(l);
        if encoding_for_label(t.as_str()).is_some() {
            return t;
        }
    }
    let _ = encoding_for_label("UTF-8");
    "UTF-8".to_owned()
}

/// The bytes of a text in an encoding.
pub fn java_str_to_bytes(input: &str, charset: Option<&str>) -> (r: Vec<u8>)
    ensures
        r@ == encoded_as(charset_label(opt_str(charset)), input@),
        charset_label(opt_str(charset)) == "UTF-8"@ ==> r@ == encode_utf8(input@),
{
    encode_text(find_charset(charset).as_str(), input)
}

/// The text of bytes in an encoding.
pub fn java_bytes_to_str(bytes: &Vec<u8>, charset: Option<&str>) -> (r: String)
    ensures
        r@ == decoded_as(charset_label(opt_str(charset)), bytes@).0,
        charset_label(opt_str(charset)) == "UTF-8"@ && utf8_of(bytes@) is Some && !is_marked(bytes@) ==> r@ == utf8_of(
            bytes@,
        )->0,
{
    decode_text(find_charset(charset).as_str(), bytes).0
}

/// The bytes of a text in base 64, padded or not.
pub open spec fn base64_bytes(text: Seq<char>, url_safe: bool) -> Option<Seq<u8>> {
    match base64_read(text, url_safe, true) {
        Some(b) => Some(b),
        None => base64_read(text, url_safe, false),
    }
}

pub fn read_base64(text: &str, url_safe: bool) -> (r: Option<Vec<u8>>)
    ensures
        opt_bytes(r) == base64_bytes(text@, url_safe),
{
    match base64_decode(text, url_safe, true) {
        Some(b) => Some(b),
        None => base64_decode(text, url_safe, false),
    }
}

/// The text that a text in base 64 stands for, in an encoding; empty where it is none.
pub fn java_base64_decode(input: &str, charset: Option<&str>) -> (r: String)
    ensures
        r@ == match base64_bytes(trim_of(input@), false) {
            Some(b) => decoded_as(charset_label(opt_str(charset)), b).0,
            None => seq![],
        },
        forall|s: Seq<char>|
            base64_bytes(trim_of(input@), false) == Some(#[trigger] encode_utf8(s)) && !is_marked(encode_utf8(s))
                && charset_label(opt_str(charset)) == "UTF-8"@ ==> r@ == s,
{
    broadcast use {encode_utf8_valid_utf8, encode_utf8_decode_utf8};

    match read_base64(trim(input).as_str(), false) {
        Some(b) => java_bytes_to_str(&b, charset),
        None => {
            let r = String::new();
            assert(r@ =~= seq![]);
            r
        },
    }
}

pub fn utf8_bytes(s: &str) -> (r: Vec<u8>)
    ensures
        r@ == encode_utf8(s@),
{
    let b = s.as_bytes();
    let mut r: Vec<u8> = Vec::new();
    let mut k: usize = 0;
    while k < b.len()
        invariant
            k <= b@.len(),
            r@ =~= b@.take(k as int),
        decreases b.len() - k,
    {
        r.push(b[k]);
        k = k + 1;
    }
    assert(r@ =~= b@);
    r
}

/// A text in base 64, which reads back as that text.
pub fn java_base64_encode(input: &str) -> (r: String)
    ensures
        r@ == base64_of(encode_utf8(input@), false, true),
        base64_bytes(trim_of(r@), false) == Some(encode_utf8(input@)),
{
    let r = base64_encode(&utf8_bytes(input), false, true);
    assert(trim_of(r@) == r@);
    r
}

/// A number as a byte.
pub open spec fn byte_of(n: int) -> u8 {
    (n % 256) as u8
}

/// The numbers among the first `n` values, if all of them are integers.
pub open spec fn integers_of(v: Seq<JsonV>, n: int) -> Option<Seq<int>>
    decreases n,
{
    if n <= 0 {
        Some(seq![])
    } else {
        match (integers_of(v, n - 1), v[n - 1]) {
            (Some(before), JsonV::Number(t)) => match within(signed_of(t), i64::MIN as int, i64::MAX as int) {
                Some(k) => Some(before.push(k)),
                None => None,
            },
            _ => None,
        }
    }
}

/// The bytes that an array of integers stands for; none where a text is no such array.
pub open spec fn json_bytes(text: Seq<char>) -> Seq<u8> {
    match json_of(text) {
        Some(JsonV::Array(v)) => match integers_of(v, v.len() as int) {
            Some(k) => Seq::new(k.len(), |i: int| byte_of(k[i])),
            None => seq![],
        },
        _ => seq![],
    }
}

fn byte(n: i64) -> (r: u8)
    ensures
        r == byte_of(n as int),
{
    if n >= 0 {
        (n % 256) as u8
    } else {
        let m: u64 = (-(n + 1)) as u64;
        let k: u64 = m % 256;
        assert((n as int) % 256 == 255 - k) by {
            assert(n as int == -(m as int) - 1);
        }
        (255 - k) as u8
    }
}

pub fn bytes_of_values(v: &Vec<Json>) -> (r: Option<Vec<u8>>)
    ensures
        match integers_of(json_models(v@), v.len() as int) {
            Some(k) => opt_bytes(r) == Some(Seq::new(k.len(), |i: int| byte_of(k[i]))),
            None => r is None,
        },
{
    let ghost all = json_models(v@);
    let mut r: Vec<u8> = Vec::new();
    let ghost mut ks: Seq<int> = seq![];
    let mut k: usize = 0;
    while k < v.len()
        invariant
            k <= v.len(),
            all == json_models(v@),
            integers_of(all, k as int) == Some(ks),
            r@ =~= Seq::new(ks.len(), |i: int| byte_of(ks[i])),
        decreases v.len() - k,
    {
        assert(all[k as int] == v@[k as int].model());
        let n = match &v[k] {
            Json::Number(t) => parse_i64(t.to_text().as_str()),
            _ => None,
        };
        match n {
            Some(x) => {
                r.push(byte(x));
                proof {
                    ks = ks.push(x as int);
                }
            },
            None => {
                proof {
                    lemma_integers_fail(all, k + 1, v.len() as int);
                }
                return None;
            },
        }
        k = k + 1;
    }
    assert(r@ =~= Seq::new(ks.len(), |i: int| byte_of(ks[i])));
    Some(r)
}

proof fn lemma_integers_fail(v: Seq<JsonV>, n: int, end: int)
    requires
        0 <= n <= end <= v.len(),
        integers_of(v, n) is None,
    ensures
        integers_of(v, end) is None,
    decreases end - n,
{
    if n < end {
        lemma_integers_fail(v, n + 1, end);
    }
}

/// Reads an array of integers as bytes.
pub fn json_byte_array(input: &str) -> (r: Vec<u8>)
    ensures
        r@ == json_bytes(input@),
{
    broadcast use lemma_array_model;

    let none: Vec<u8> = Vec::new();
    assert(none@ =~= seq![]);
    match parse_json(input) {
        Some(Json::Array(v)) => {
            assert(json_of(input@) == Some(Json::Array(v).model()));
            assert(json_models(v@).len() == v.len());
            match bytes_of_values(&v) {
                Some(b) => b,
                None => none,
            }
        },
        _ => none,
    }
}

/// Bytes as an array of integers.
pub open spec fn bytes_text(b: Seq<u8>) -> Seq<char> {
    json_text_of(JsonV::Array(Seq::new(b.len(), |i: int| JsonV::Number(integer_text(b[i] as int)))))
}

proof fn lemma_bytes_integers(b: Seq<u8>, n: int)
    requires
        0 <= n <= b.len(),
    ensures
        integers_of(Seq::new(b.len(), |i: int| JsonV::Number(integer_text(b[i] as int))), n) == Some(
            Seq::new(n as nat, |i: int| b[i] as int),
        ),
    decreases n,
{
    let v = Seq::new(b.len(), |i: int| JsonV::Number(integer_text(b[i] as int)));
    if n > 0 {
        lemma_bytes_integers(b, n - 1);
        let k = b[n - 1] as int;
        lemma_decimal_read(k);
        assert(v[n - 1] == JsonV::Number(decimal_of(k)));
        assert(Seq::new((n - 1) as nat, |i: int| b[i] as int).push(k) =~= Seq::new(n as nat, |i: int| b[i] as int));
    } else {
        assert(Seq::new(n as nat, |i: int| b[i] as int) =~= seq![]);
    }
}

proof fn lemma_decimal_read(n: int)
    requires
        0 <= n,
    ensures
        signed_of(decimal_of(n)) == Some(n),
{
    lemma_decimal_digits(n);
    let s = decimal_of(n);
    assert(is_digit(s[0]));
}

proof fn lemma_decimal_digits(n: int)
    requires
        0 <= n,
    ensures
        decimal_of(n).len() > 0,
        all_digits(decimal_of(n)),
        digits_value(decimal_of(n)) == n,
    decreases n,
{
    let s = decimal_of(n);
    if n >= 10 {
        lemma_decimal_digits(n / 10);
        assert(s.drop_last() =~= decimal_of(n / 10));
        assert(s.last() as int - '0' as int == n % 10);
        assert((n / 10) * 10 + n % 10 == n);
    } else {
        assert(s.drop_last() =~= seq![]);
        assert(digits_value(s.drop_last()) == 0);
        assert(s.last() as int - '0' as int == n);
    }
    assert(digits_value(s) == digits_value(s.drop_last()) * 10 + (s.last() as int - '0' as int));
    assert(all_digits(s)) by {
        assert forall|i: int| 0 <= i < s.len() implies is_digit(#[trigger] s[i]) by {
            if i < s.len() - 1 {
                assert(s[i] == s.drop_last()[i]);
                assert(is_digit(s.drop_last()[i]));
            }
        }
    }
}

/// Writes bytes as an array of integers, from which they are read back.
pub fn write_bytes(b: &Vec<u8>) -> (r: String)
    ensures
        r@ == bytes_text(b@),
        json_bytes(r@) == b@,
{
    broadcast use lemma_array_model;

    let ghost goal = Seq::new(b@.len(), |i: int| JsonV::Number(integer_text(b@[i] as int)));
    let mut v: Vec<Json> = Vec::new();
    let mut k: usize = 0;
    while k < b.len()
        invariant
            k <= b.len(),
            goal == Seq::new(b@.len(), |i: int| JsonV::Number(integer_text(b@[i] as int))),
            json_models(v@) =~= goal.take(k as int),
        decreases b.len() - k,
    {
        let ghost before = json_models(v@);
        v.push(Json::Number(json_integer(b[k] as i128)));
        assert(json_models(v@) =~= before.push(goal[k as int]));
        k = k + 1;
    }
    assert(goal.take(k as int) =~= goal);
    proof {
        lemma_bytes_integers(b@, b@.len() as int);
        let ks = Seq::new(b@.len(), |i: int| b@[i] as int);
        assert(Seq::new(ks.len(), |i: int| byte_of(ks[i])) =~= b@);
    }
    json_to_text(&Json::Array(v))
}

/// Whether the flags of Android ask for the alphabet for URLs.
pub open spec fn asks_url_safe(flags: i32) -> bool {
    flags & 8 != 0
}

/// Whether the flags of Android ask for no padding.
pub open spec fn asks_no_padding(flags: i32) -> bool {
    flags & 1 != 0
}

/// Bytes in base 64, by the flags of Android; with padding they decode to what
/// they were.
pub fn java_base64_encode_bytes(input_json: &str, flags: i32) -> (r: String)
    ensures
        r@ == base64_of(json_bytes(input_json@), asks_url_safe(flags), !asks_no_padding(flags)),
        !asks_no_padding(flags) ==> base64_decoded(r@, flags) == json_bytes(input_json@),
{
    let bytes = json_byte_array(input_json);
    let r = base64_encode(&bytes, flags & 8 != 0, !(flags & 1 != 0));
    proof {
        lemma_no_spaces(r@, r@.len() as int);
        assert(r@.take(r@.len() as int) =~= r@);
    }
    r
}

proof fn lemma_no_spaces(s: Seq<char>, n: int)
    requires
        0 <= n <= s.len(),
        forall|i: int| 0 <= i < s.len() ==> !is_space(#[trigger] s[i]),
    ensures
        without_spaces(s, n) =~= s.take(n),
    decreases n,
{
    if n > 0 {
        lemma_no_spaces(s, n - 1);
    }
}

/// The first `n` characters that are no white space.
pub open spec fn without_spaces(s: Seq<char>, n: int) -> Seq<char>
    decreases n,
{
    if n <= 0 {
        seq![]
    } else if is_space(s[n - 1]) {
        without_spaces(s, n - 1)
    } else {
        without_spaces(s, n - 1).push(s[n - 1])
    }
}

pub fn remove_spaces(s: &str) -> (r: String)
    ensures
        r@ == without_spaces(s@, s@.len() as int),
{
    let v = chars_of(s);
    let mut r = String::new();
    let mut k: usize = 0;
    assert(r@ =~= seq![]);
    while k < v.len()
        invariant
            v@ == s@,
            k <= v.len(),
            r@ == without_spaces(s@, k as int),
        decreases v.len() - k,
    {
        if !is_space_char(v[k]) {
            r.push(v[k]);
        }
        k = k + 1;
    }
    r
}

/// The bytes of a text in base 64, by the flags of Android; none where it is no
/// such text.
pub open spec fn base64_decoded(input: Seq<char>, flags: i32) -> Seq<u8> {
    match base64_bytes(without_spaces(input, input.len() as int), asks_url_safe(flags)) {
        Some(b) => b,
        None => seq![],
    }
}

pub fn java_base64_decode_bytes(input: &str, flags: i32) -> (r: String)
    ensures
        r@ == bytes_text(base64_decoded(input@, flags)),
{
    let bytes = match read_base64(remove_spaces(input).as_str(), flags & 8 != 0) {
        Some(b) => b,
        None => {
            let none: Vec<u8> = Vec::new();
            assert(none@ =~= seq![]);
            none
        },
    };
    write_bytes(&bytes)
}

/// The bits of the digest that an algorithm of Java is named after.
pub open spec fn digest_bits(algorithm: Seq<char>) -> Option<u16> {
    if same_name(algorithm, "HmacSHA1"@) {
        Some(160u16)
    } else if same_name(algorithm, "HmacSHA256"@) {
        Some(256u16)
    } else if same_name(algorithm, "HmacSHA384"@) {
        Some(384u16)
    } else if same_name(algorithm, "HmacSHA512"@) {
        Some(512u16)
    } else {
        None
    }
}

/// The authentication code of bytes, as an array; empty where the algorithm is
/// not known or the bytes are more than a digest takes.
pub open spec fn hmac_text(algorithm: Seq<char>, key: Seq<u8>, data: Seq<u8>) -> Seq<char> {
    match digest_bits(algorithm) {
        Some(bits) => if key.len() < 0x1000_0000_0000_0000 && data.len() < 0x1000_0000_0000_0000 {
            bytes_text(hmac_of(bits as int, key, data))
        } else {
            "[]"@
        },
        None => "[]"@,
    }
}

pub fn find_digest(algorithm: &str) -> (r: Option<u16>)
    ensures
        r == digest_bits(algorithm@),
{
    if eq_ignore_ascii_case(algorithm, "HmacSHA1") {
        Some(160)
    } else if eq_ignore_ascii_case(algorithm, "HmacSHA256") {
        Some(256)
    } else if eq_ignore_ascii_case(algorithm, "HmacSHA384") {
        Some(384)
    } else if eq_ignore_ascii_case(algorithm, "HmacSHA512") {
        Some(512)
    } else {
        None
    }
}

/// The authentication code of bytes under a key, both as arrays.
pub fn java_hmac_bytes(algorithm: &str, key_json: &str, data_json: &str) -> (r: String)
    ensures
        r@ == hmac_text(algorithm@, json_bytes(key_json@), json_bytes(data_json@)),
{
    match find_digest(algorithm) {
        Some(bits) => {
            let key = json_byte_array(key_json);
            let data = json_byte_array(data_json);
            if key.len() as u64 >= 0x1000_0000_0000_0000 || data.len() as u64 >= 0x1000_0000_0000_0000 {
                return "[]".to_owned();
            }
            write_bytes(&hmac_sign(bits, &key, &data))
        },
        None => "[]".to_owned(),
    }
}

/// A text in an encoding, written for a URL.
pub fn java_encode_uri(input: &str, charset: Option<&str>) -> (r: String)
    ensures
        r@ == percent_of(encoded_as(charset_label(opt_str(charset)), input@)),
{
    percent_encode_bytes(&java_str_to_bytes(input, charset))
}

/// A text of a URL without its percent signs; empty where that is no text.
pub fn java_decode_uri(input: &str) -> (r: String)
    ensures
        r@ == or_blank(percent_decoded(input@)),
{
    text_or_blank(percent_decode(input))
}

/// A text written for a URL.
pub fn java_encode_uri_component(input: &str) -> (r: String)
    ensures
        r@ == percent_of(encode_utf8(input@)),
{
    percent_encode(input)
}

/// Whether a cipher is the one that is known: AES in CBC mode with padding.
pub open spec fn is_known_cipher(algorithm: Seq<char>) -> bool {
    same_name(algorithm, "AES/CBC/PKCS5Padding"@) || same_name(algorithm, "AES/CBC/PKCS7Padding"@)
}

pub fn known_cipher(algorithm: &str) -> (r: bool)
    ensures
        r == is_known_cipher(algorithm@),
{
    eq_ignore_ascii_case(algorithm, "AES/CBC/PKCS5Padding") || eq_ignore_ascii_case(algorithm, "AES/CBC/PKCS7Padding")
}

/// A text that was encrypted and written in base 64; empty where it is none.
pub open spec fn aes_text(input: Seq<char>, key: Seq<char>, algorithm: Seq<char>, iv: Seq<char>) -> Seq<char> {
    if !is_known_cipher(algorithm) {
        seq![]
    } else {
        match base64_read(trim_of(input), false, true) {
            Some(b) => match aes_decrypted(encode_utf8(key), encode_utf8(iv), b) {
                Some(t) => or_blank(utf8_of(t)),
                None => seq![],
            },
            None => seq![],
        }
    }
}

fn blank() -> (r: String)
    ensures
        r@ == Seq::<char>::empty(),
{
    let r = String::new();
    assert(r@ =~= Seq::<char>::empty());
    r
}

pub fn java_aes_base64_decode_to_string(input: &str, key: &str, algorithm: &str, iv: &str) -> (r: String)
    ensures
        r@ == aes_text(input@, key@, algorithm@, iv@),
{
    if !known_cipher(algorithm) {
        return blank();
    }
    match base64_decode(trim(input).as_str(), false, true) {
        Some(b) => match aes_decrypt(&utf8_bytes(key), &utf8_bytes(iv), &b) {
            Some(t) => text_or_blank(utf8_text(&t)),
            None => blank(),
        },
        None => blank(),
    }
}

/// The bytes of an encrypted text; none where the cipher is not known or the key
/// or the vector has not 16 bytes.
pub open spec fn aes_bytes(input: Seq<char>, key: Seq<char>, algorithm: Seq<char>, iv: Seq<char>) -> Option<Seq<u8>> {
    if is_known_cipher(algorithm) {
        aes_encrypted(encode_utf8(key), encode_utf8(iv), encode_utf8(input))
    } else {
        None
    }
}

pub fn encrypt_text(input: &str, key: &str, algorithm: &str, iv: &str) -> (r: Option<Vec<u8>>)
    ensures
        opt_bytes(r) == aes_bytes(input@, key@, algorithm@, iv@),
        r is Some ==> aes_decrypted(encode_utf8(key@), encode_utf8(iv@), r->0@) == Some(encode_utf8(input@)),
        (is_known_cipher(algorithm@) && encode_utf8(key@).len() == 16 && encode_utf8(iv@).len() == 16) == r.is_some(),
{
    if known_cipher(algorithm) {
        aes_encrypt(&utf8_bytes(key), &utf8_bytes(iv), &utf8_bytes(input))
    } else {
        None
    }
}

/// Encrypts a text and writes it in base 64; what is written decrypts to the text.
pub fn java_aes_base64_encode(input: &str, key: &str, algorithm: &str, iv: &str) -> (r: String)
    ensures
        r@ == match aes_bytes(input@, key@, algorithm@, iv@) {
            Some(b) => base64_of(b, false, true),
            None => seq![],
        },
        is_known_cipher(algorithm@) && encode_utf8(key@).len() == 16 && encode_utf8(iv@).len() == 16 ==> aes_text(
            r@,
            key@,
            algorithm@,
            iv@,
        ) == input@,
{
    broadcast use {encode_utf8_valid_utf8, encode_utf8_decode_utf8};

    match encrypt_text(input, key, algorithm, iv) {
        Some(b) => {
            let r = base64_encode(&b, false, true);
            assert(trim_of(r@) == r@);
            r
        },
        None => blank(),
    }
}

/// Encrypts a text and writes it in hexadecimal digits.
pub fn java_aes_encode(input: &str, key: &str, algorithm: &str, iv: &str) -> (r: String)
    ensures
        r@ == match aes_bytes(input@, key@, algorithm@, iv@) {
            Some(b) => hex_text(b),
            None => seq![],
        },
{
    match encrypt_text(input, key, algorithm, iv) {
        Some(b) => to_hex(&b),
        None => blank(),
    }
}

/// The bytes among the first `n` values, if all of them are bytes.
pub open spec fn exact_bytes(v: Seq<JsonV>, n: int) -> Option<Seq<u8>>
    decreases n,
{
    if n <= 0 {
        Some(seq![])
    } else {
        match (exact_bytes(v, n - 1), v[n - 1]) {
            (Some(before), JsonV::Number(t)) => match within(unsigned_of(t), 0, 255) {
                Some(k) => Some(before.push(k as u8)),
                None => None,
            },
            _ => None,
        }
    }
}

/// The bytes of a member that is an array of them.
pub open spec fn member_bytes(v: JsonV, key: Seq<char>) -> Option<Seq<u8>> {
    match member_of(v, key) {
        Some(JsonV::Array(a)) => exact_bytes(a, a.len() as int),
        _ => None,
    }
}

proof fn lemma_exact_fail(v: Seq<JsonV>, n: int, end: int)
    requires
        0 <= n <= end <= v.len(),
        exact_bytes(v, n) is None,
    ensures
        exact_bytes(v, end) is None,
    decreases end - n,
{
    if n < end {
        lemma_exact_fail(v, n + 1, end);
    }
}

pub fn read_exact(v: &Vec<Json>) -> (r: Option<Vec<u8>>)
    ensures
        opt_bytes(r) == exact_bytes(json_models(v@), v.len() as int),
{
    let ghost all = json_models(v@);
    let mut r: Vec<u8> = Vec::new();
    let mut k: usize = 0;
    assert(r@ =~= seq![]);
    while k < v.len()
        invariant
            k <= v.len(),
            all == json_models(v@),
            exact_bytes(all, k as int) == Some(r@),
        decreases v.len() - k,
    {
        assert(all[k as int] == v@[k as int].model());
        let n = match &v[k] {
            Json::Number(t) => parse_unsigned(t.to_text().as_str(), 255),
            _ => None,
        };
        match n {
            Some(x) => {
                r.push(x as u8);
            },
            None => {
                proof {
                    lemma_exact_fail(all, k + 1, v.len() as int);
                }
                return None;
            },
        }
        k = k + 1;
    }
    Some(r)
}

pub fn find_bytes(v: &Json, key: &str) -> (r: Option<Vec<u8>>)
    ensures
        opt_bytes(r) == member_bytes(v.model(), key@),
{
    broadcast use lemma_array_model;

    match v.get(key) {
        Some(Json::Array(a)) => {
            assert(json_models(a@).len() == a.len());
            read_exact(a)
        },
        Some(_) => None,
        None => None,
    }
}

/// Whether a value asks for decryption by the cipher that is known.
pub open spec fn asks_decryption(v: JsonV) -> bool {
    &&& match member_of(v, "mode"@) {
        Some(JsonV::Number(t)) => t == "2"@,
        _ => false,
    }
    &&& match member_of(v, "algorithm"@) {
        Some(JsonV::Text(t)) => is_known_cipher(t),
        _ => false,
    }
}

pub fn wants_decryption(v: &Json) -> (r: bool)
    ensures
        r == asks_decryption(v.model()),
{
    let mode = match v.get("mode") {
        Some(Json::Number(t)) => same(t.to_text().as_str(), "2"),
        Some(_) => false,
        None => false,
    };
    let cipher = match v.get("algorithm") {
        Some(Json::Text(t)) => known_cipher(t.as_str()),
        Some(_) => false,
        None => false,
    };
    mode && cipher
}

/// The bytes that a request to decrypt stands for; none where anything is wrong.
pub open spec fn decrypted_bytes(input: Seq<char>) -> Seq<u8> {
    match json_of(input) {
        Some(v) => if asks_decryption(v) {
            match (member_bytes(v, "key"@), member_bytes(v, "iv"@), member_bytes(v, "data"@)) {
                (Some(key), Some(iv), Some(data)) => match aes_decrypted(key, iv, data) {
                    Some(b) => b,
                    None => seq![],
                },
                _ => seq![],
            }
        } else {
            seq![]
        },
        None => seq![],
    }
}

/// Decrypts what a script asks for.
pub fn java_aes_decrypt_byte_array(input: &str) -> (r: Vec<u8>)
    ensures
        r@ == decrypted_bytes(input@),
{
    let none: Vec<u8> = Vec::new();
    assert(none@ =~= seq![]);
    let v = match parse_json(input) {
        Some(v) => v,
        None => {
            return none;
        },
    };
    if !wants_decryption(&v) {
        return none;
    }
    match (find_bytes(&v, "key"), find_bytes(&v, "iv"), find_bytes(&v, "data")) {
        (Some(key), Some(iv), Some(data)) => match aes_decrypt(&key, &iv, &data) {
            Some(b) => b,
            None => none,
        },
        _ => none,
    }
}

/// Decrypts what a script asks for, to a text.
pub fn java_aes_decrypt_bytes(input: &str) -> (r: String)
    ensures
        r@ == or_blank(utf8_of(decrypted_bytes(input@))),
{
    text_or_blank(utf8_text(&java_aes_decrypt_byte_array(input)))
}

/// The middle half of the MD5 digest of a text.
pub fn md5_to_16(input: &str) -> (r: String)
    ensures
        r@ == md5_of(input@).subrange(8, 24),
{
    substring(md5_hex(input).as_str(), 8, 24)
}

/// The MD5 digest of a text.
pub fn md5_encode(input: &str) -> (r: String)
    ensures
        r@ == md5_of(input@),
{
    md5_hex(input)
}

/// The value of a hexadecimal digit.
pub open spec fn nibble(c: char) -> Option<int> {
    if '0' <= c <= '9' {
        Some(c as int - '0' as int)
    } else if 'a' <= c <= 'f' {
        Some(c as int - 'a' as int + 10)
    } else if 'A' <= c <= 'F' {
        Some(c as int - 'A' as int + 10)
    } else {
        None
    }
}

/// The bytes of the first `n` pairs of hexadecimal digits, if they are such digits.
pub open spec fn hex_pairs(s: Seq<char>, n: int) -> Option<Seq<u8>>
    decreases n,
{
    if n <= 0 {
        Some(seq![])
    } else {
        match (hex_pairs(s, n - 1), nibble(s[2 * n - 2]), nibble(s[2 * n - 1])) {
            (Some(before), Some(a), Some(b)) => Some(before.push((a * 16 + b) as u8)),
            _ => None,
        }
    }
}

/// The bytes that hexadecimal digits write; none where they do not.
pub open spec fn hex_bytes(s: Seq<char>) -> Seq<u8> {
    match hex_pairs(s, s.len() as int / 2) {
        Some(b) => if s.len() % 2 == 0 {
            b
        } else {
            seq![]
        },
        None => seq![],
    }
}

pub fn digit_value(c: char) -> (r: Option<u8>)
    ensures
        match r {
            Some(n) => nibble(c) == Some(n as int) && n < 16,
            None => nibble(c) is None,
        },
{
    if '0' <= c && c <= '9' {
        Some(c as u8 - 48)
    } else if 'a' <= c && c <= 'f' {
        Some(c as u8 - 97 + 10)
    } else if 'A' <= c && c <= 'F' {
        Some(c as u8 - 65 + 10)
    } else {
        None
    }
}

proof fn lemma_pairs_fail(s: Seq<char>, n: int, end: int)
    requires
        0 <= n <= end,
        hex_pairs(s, n) is None,
    ensures
        hex_pairs(s, end) is None,
    decreases end - n,
{
    if n < end {
        lemma_pairs_fail(s, n + 1, end);
    }
}

/// Reads hexadecimal digits, without the white space around them.
pub fn hex_decode(input: &str) -> (r: Vec<u8>)
    ensures
        r@ == hex_bytes(trim_of(input@)),
{
    let t = trim(input);
    let v = chars_of(t.as_str());
    let none: Vec<u8> = Vec::new();
    assert(none@ =~= seq![]);
    if v.len() % 2 != 0 {
        return none;
    }
    let pairs: usize = v.len() / 2;
    let mut r: Vec<u8> = Vec::new();
    let mut k: usize = 0;
    assert(r@ =~= seq![]);
    while k < pairs
        invariant
            k <= pairs,
            v@ == t@,
            t@ == trim_of(input@),
            none@ == Seq::<u8>::empty(),
            pairs == v.len() / 2,
            v.len() % 2 == 0,
            hex_pairs(v@, k as int) == Some(r@),
        decreases pairs - k,
    {
        match (digit_value(v[2 * k]), digit_value(v[2 * k + 1])) {
            (Some(a), Some(b)) => {
                r.push(a * 16 + b);
            },
            _ => {
                proof {
                    lemma_pairs_fail(v@, k + 1, pairs as int);
                }
                return none;
            },
        }
        k = k + 1;
    }
    r
}

/// The text that hexadecimal digits write.
pub fn hex_decode_to_string(input: &str) -> (r: String)
    ensures
        r@ == lossy_text(hex_bytes(trim_of(input@))),
{
    read_lossy(&hex_decode(input))
}

/// A text in hexadecimal digits.
pub fn hex_encode_to_string(input: &str) -> (r: String)
    ensures
        r@ == hex_text(encode_utf8(input@)),
{
    to_hex(&utf8_bytes(input))
}

/// A text compressed and written in base 64; what is written decompresses to it.
pub fn java_gzip(input: &str) -> (r: String)
    ensures
        r@ == base64_of(gzip_of(encode_utf8(input@)), false, true),
        ungzipped(r@) == input@,
{
    let r = base64_encode(&gzip(input), false, true);
    assert(trim_of(r@) == r@);
    r
}

/// The text that was compressed and written in base 64; empty where there is none.
pub open spec fn ungzipped(input: Seq<char>) -> Seq<char> {
    match base64_read(trim_of(input), false, true) {
        Some(b) => or_blank(gzip_text(b)),
        None => seq![],
    }
}

pub fn java_ungzip(input: &str) -> (r: String)
    ensures
        r@ == ungzipped(input@),
{
    match base64_decode(trim(input).as_str(), false, true) {
        Some(b) => text_or_blank(gunzip(&b)),
        None => blank(),
    }
}

/// A number in hexadecimal digits, so many at least.
pub open spec fn hex_number(n: int, least: int) -> Seq<char>
    decreases (if n < 0 {
        0
    } else {
        n
    }), (if least < 0 {
        0
    } else {
        least
    }),
{
    if n < 16 && least <= 1 {
        seq![hex_digit(n, true)]
    } else if n < 16 {
        hex_number(0, least - 1).push(hex_digit(n, true))
    } else {
        hex_number(n / 16, least - 1).push(hex_digit(n % 16, true))
    }
}

/// Whether a character stands for itself in an escaped text.
pub open spec fn stays_unescaped(c: char) -> bool {
    is_ascii_letter(c) || is_digit(c) || c == '*' || c == '+' || c == '-' || c == '.' || c == '/' || c == '@' || c == '_'
}

/// A character in an escaped text.
pub open spec fn java_escaped(c: char) -> Seq<char> {
    if stays_unescaped(c) {
        seq![c]
    } else if code_of(c) < 256 {
        "%"@ + hex_byte(code_of(c), true)
    } else {
        "%u"@ + hex_number(code_of(c), 4)
    }
}

/// The first `n` characters of an escaped text.
pub open spec fn java_escape_of(s: Seq<char>, n: int) -> Seq<char>
    decreases n,
{
    if n <= 0 {
        seq![]
    } else {
        java_escape_of(s, n - 1) + java_escaped(s[n - 1])
    }
}

fn push_hex_number(out: &mut String, n: u32)
    requires
        n >= 16 * 16,
        n < 0x110000,
    ensures
        final(out)@ == old(out)@ + hex_number(n as int, 4),
{
    let ghost before = out@;
    reveal_with_fuel(hex_number, 7);
    let a = n / 0x100000;
    let b = (n / 0x10000) % 16;
    let c = (n / 0x1000) % 16;
    let d = (n / 0x100) % 16;
    let e = (n / 0x10) % 16;
    let f = n % 16;
    assert(n as int / 16 / 16 == n as int / 0x100);
    assert(n as int / 16 / 16 / 16 == n as int / 0x1000);
    assert(n as int / 16 / 16 / 16 / 16 == n as int / 0x10000);
    assert(n as int / 16 / 16 / 16 / 16 / 16 == n as int / 0x100000);
    if n >= 0x100000 {
        out.push(hex_digit_char(a as u8, true));
    }
    if n >= 0x10000 {
        out.push(hex_digit_char(b as u8, true));
    }
    out.push(hex_digit_char(c as u8, true));
    out.push(hex_digit_char(d as u8, true));
    out.push(hex_digit_char(e as u8, true));
    out.push(hex_digit_char(f as u8, true));
    assert(out@ =~= before + hex_number(n as int, 4));
}

/// Escapes a text as a script's `escape` does, by characters.
pub fn java_escape(input: &str) -> (r: String)
    ensures
        r@ == java_escape_of(input@, input@.len() as int),
{
    let v = chars_of(input);
    let mut out = String::new();
    let mut k: usize = 0;
    assert(out@ =~= seq![]);
    while k < v.len()
        invariant
            v@ == input@,
            k <= v.len(),
            out@ == java_escape_of(input@, k as int),
        decreases v.len() - k,
    {
        let c = v[k];
        let n = char_code(c);
        let ghost before = out@;
        if is_ascii_letter_char(c) || is_digit_char(c) || c == '*' || c == '+' || c == '-' || c == '.' || c == '/' || c
            == '@' || c == '_' {
            out.push(c);
            assert(out@ =~= before + seq![c]);
        } else if n < 256 {
            out.append("%");
            push_hex_byte(&mut out, n as u8, true);
            assert(out@ =~= before + ("%"@ + hex_byte(code_of(c), true)));
        } else {
            out.append("%u");
            push_hex_number(&mut out, n);
            assert(out@ =~= before + ("%u"@ + hex_number(code_of(c), 4)));
        }
        k = k + 1;
    }
    out
}

/// The number that hexadecimal digits write, with a plus sign or without.
pub open spec fn radix_number(s: Seq<char>) -> Option<int> {
    if s.len() > 0 && s[0] == '+' {
        hex_of(s.subrange(1, s.len() as int))
    } else {
        hex_of(s)
    }
}

pub fn parse_radix(s: &str, hi: u64) -> (r: Option<u64>)
    ensures
        match r {
            Some(n) => within(radix_number(s@), 0, hi as int) == Some(n as int),
            None => within(radix_number(s@), 0, hi as int) is None,
        },
{
    let v = chars_of(s);
    if v.len() > 0 && v[0] == '+' {
        return parse_hex(string_range(&v, 1, v.len()).as_str(), hi);
    }
    parse_hex(s, hi)
}

pub open spec fn at_most(a: int, b: int) -> int {
    if a < b {
        a
    } else {
        b
    }
}

/// What the digits after a percent sign stand for: the character of that code,
/// else themselves.
pub open spec fn unescaped_code(head: Seq<char>, hex: Seq<char>, hi: int) -> Seq<char> {
    match within(radix_number(hex), 0, hi) {
        Some(n) => if is_char_code(n) {
            seq![char_of_code(n)]
        } else {
            head + hex
        },
        None => head + hex,
    }
}

/// A text from `i` on, unescaped.
pub open spec fn unescape_from(s: Seq<char>, i: int) -> Seq<char>
    decreases s.len() - i,
{
    if i < 0 || i >= s.len() {
        seq![]
    } else if s[i] != '%' {
        seq![s[i]] + unescape_from(s, i + 1)
    } else if i + 1 < s.len() && s[i + 1] == 'u' {
        let end = at_most(i + 6, s.len() as int);
        unescaped_code("%u"@, s.subrange(i + 2, end), 0xffffffff) + unescape_from(s, end)
    } else {
        let end = at_most(i + 3, s.len() as int);
        unescaped_code("%"@, s.subrange(i + 1, end), 255) + unescape_from(s, end)
    }
}

fn push_unescaped(out: &mut String, head: &str, hex: &str, hi: u64)
    requires
        hi <= 0xffffffff,
    ensures
        final(out)@ == old(out)@ + unescaped_code(head@, hex@, hi as int),
{
    let ghost before = out@;
    if let Some(n) = parse_radix(hex, hi) {
        if let Some(c) = char::from_u32(n as u32) {
            out.push(c);
            assert(code_of(c) == n);
            assert(char_of_code(n as int) == c);
            assert(out@ =~= before + seq![c]);
            return;
        }
    }
    out.append(head);
    out.append(hex);
    assert(out@ =~= before + (head@ + hex@));
}

/// Unescapes a text as a script's `unescape` does.
pub fn java_unescape(input: &str) -> (r: String)
    ensures
        r@ == unescape_from(input@, 0),
{
    let v = chars_of(input);
    let ghost s = input@;
    let ghost goal = unescape_from(s, 0);
    let mut out = String::new();
    let mut i: usize = 0;
    assert(goal =~= out@ + unescape_from(s, 0));
    while i < v.len()
        invariant
            v@ == s,
            s == input@,
            i <= v.len(),
            goal == out@ + unescape_from(s, i as int),
        decreases v.len() - i,
    {
        let ghost before = out@;
        let left: usize = v.len() - i;
        if v[i] != '%' {
            out.push(v[i]);
            assert(out@ + unescape_from(s, i + 1) =~= before + (seq![s[i as int]] + unescape_from(s, i + 1)));
            i = i + 1;
        } else if left > 1 && v[i + 1] == 'u' {
            let end: usize = if left > 6 {
                i + 6
            } else {
                v.len()
            };
            let hex = string_range(&v, i + 2, end);
            push_unescaped(&mut out, "%u", hex.as_str(), 0xffffffff);
            assert(out@ + unescape_from(s, end as int) =~= before + (unescaped_code("%u"@, hex@, 0xffffffff)
                + unescape_from(s, end as int)));
            i = end;
        } else {
            let end: usize = if left > 3 {
                i + 3
            } else {
                v.len()
            };
            let hex = string_range(&v, i + 1, end);
            push_unescaped(&mut out, "%", hex.as_str(), 255);
            assert(out@ + unescape_from(s, end as int) =~= before + (unescaped_code("%"@, hex@, 255) + unescape_from(
                s,
                end as int,
            )));
            i = end;
        }
    }
    assert(out@ + unescape_from(s, i as int) =~= out@);
    out
}

} // verus!
