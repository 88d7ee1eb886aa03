//! What is made of a response: its text, the challenges that it may be, and
//! whether the request is tried again.

use crate::crawler::url_rule::{same_name, RequestSpec};
use crate::ext::codec::{
    decode_text, decoded_as, encoding_for_label, encoding_of, guess_encoding, guessed_encoding, lossy_text, read_lossy,
};
use crate::ext::regexes::{find_matches, found_models, opt_texts, regex_matches, FoundV, Matches};
use crate::ext::xml::pairs;
use crate::parser::field::{or_blank, text_or_blank};
use crate::parser::markup::{first_group, group_at, group_of_first, group_text};
use crate::util::bytes::{hex_text, to_hex, utf8_of, utf8_text};
use crate::util::chars::{
    char_code, chars_of, code_of, concat, contains, contains_text, copy, ends_with, eq_ignore_ascii_case, has_prefix,
    has_suffix, is_empty_text, lower_ascii_of, opt_str, opt_text, same, split, split_of, split_once, split_once_of,
    starts_with, string_range, texts, to_ascii_lowercase, trim, trim_of, trim_quotes, without_quotes,
};
use vstd::prelude::*;
use vstd::string::*;

verus! {

/// A response as it came: headers in order, without a value where it is no text.
#[derive(Debug)]
pub struct RawResponse {
    pub url: String,
    pub status: u16,
    pub headers: Vec<(String, Option<String>)>,
    pub body: Vec<u8>,
}

pub struct RawV {
    pub url: Seq<char>,
    pub status: u16,
    pub headers: Seq<(Seq<char>, Option<Seq<char>>)>,
    pub body: Seq<u8>,
}

pub open spec fn raw_headers(v: Seq<(String, Option<String>)>) -> Seq<(Seq<char>, Option<Seq<char>>)> {
    Seq::new(v.len(), |i: int| (v[i].0@, opt_text(v[i].1)))
}

impl RawResponse {
    pub open spec fn model(self) -> RawV {
        RawV { url: self.url@, status: self.status, headers: raw_headers(self.headers@), body: self.body@ }
    }
}

/// A response with its text.
#[derive(Debug)]
pub struct HttpResponse {
    pub url: String,
    pub status: u16,
    pub headers: Vec<(String, String)>,
    pub body: String,
}

pub struct HttpV {
    pub url: Seq<char>,
    pub status: u16,
    pub headers: Seq<(Seq<char>, Seq<char>)>,
    pub body: Seq<char>,
}

impl HttpResponse {
    pub open spec fn model(self) -> HttpV {
        HttpV { url: self.url@, status: self.status, headers: pairs(self.headers@), body: self.body@ }
    }
}

/// Why a request failed.
#[derive(Debug)]
pub enum FetchError {
    InvalidUrl(String),
    Network(String),
    Timeout { url: Option<String>, message: String },
    HttpStatus { status: u16, url: String },
    ResponseTooLarge { url: String, limit: usize },
    AuthChallenge {
        kind: String,
        message: String,
        status: Option<u16>,
        url: String,
        mode: String,
        login_url: Option<String>,
        action_url: Option<String>,
    },
}

pub enum FaultV {
    InvalidUrl(Seq<char>),
    Network(Seq<char>),
    Timeout { url: Option<Seq<char>>, message: Seq<char> },
    HttpStatus { status: u16, url: Seq<char> },
    ResponseTooLarge { url: Seq<char>, limit: usize },
    AuthChallenge {
        kind: Seq<char>,
        message: Seq<char>,
        status: Option<u16>,
        url: Seq<char>,
        mode: Seq<char>,
        login_url: Option<Seq<char>>,
        action_url: Option<Seq<char>>,
    },
}

impl FetchError {
    pub open spec fn model(self) -> FaultV {
        match self {
            FetchError::InvalidUrl(m) => FaultV::InvalidUrl(m@),
            FetchError::Network(m) => FaultV::Network(m@),
            FetchError::Timeout { url, message } => FaultV::Timeout { url: opt_text(url), message: message@ },
            FetchError::HttpStatus { status, url } => FaultV::HttpStatus { status, url: url@ },
            FetchError::ResponseTooLarge { url, limit } => FaultV::ResponseTooLarge { url: url@, limit },
            FetchError::AuthChallenge { kind, message, status, url, mode, login_url, action_url } => {
                FaultV::AuthChallenge {
                    kind: kind@,
                    message: message@,
                    status,
                    url: url@,
                    mode: mode@,
                    login_url: opt_text(login_url),
                    action_url: opt_text(action_url),
                }
            },
        }
    }
}

/// The first header of a name, from position `k` on: its text, if it has one.
pub open spec fn header_from(h: Seq<(Seq<char>, Option<Seq<char>>)>, name: Seq<char>, k: int) -> Option<Seq<char>>
    decreases h.len() - k,
{
    if k < 0 || k >= h.len() {
        None
    } else if same_name(h[k].0, name) {
        h[k].1
    } else {
        header_from(h, name, k + 1)
    }
}

pub fn header_text(h: &Vec<(String, Option<String>)>, name: &str) -> (r: Option<String>)
    ensures
        opt_text(r) == header_from(raw_headers(h@), name@, 0),
{
    let ghost all = raw_headers(h@);
    let mut k: usize = 0;
    while k < h.len()
        invariant
            k <= h.len(),
            all == raw_headers(h@),
            header_from(all, name@, 0) == header_from(all, name@, k as int),
        decreases h.len() - k,
    {
        assert(all[k as int] == (h@[k as int].0@, opt_text(h@[k as int].1)));
        if eq_ignore_ascii_case(h[k].0.as_str(), name) {
            return match &h[k].1 {
                Some(t) => Some(t.clone()),
                None => None,
            };
        }
        k = k + 1;
    }
    None
}

/// Headers with one more value: after a comma where the name is there already.
pub open spec fn with_value(h: Seq<(Seq<char>, Seq<char>)>, name: Seq<char>, value: Seq<char>, k: int) -> Seq<
    (Seq<char>, Seq<char>),
>
    decreases h.len() - k,
{
    if k < 0 || k >= h.len() {
        h.push((name, value))
    } else if h[k].0 == name {
        h.update(k, (name, h[k].1 + ", "@ + value))
    } else {
        with_value(h, name, value, k + 1)
    }
}

/// The first `n` headers by name in lower case, the values of one name joined.
pub open spec fn joined_headers(h: Seq<(Seq<char>, Option<Seq<char>>)>, n: int) -> Seq<(Seq<char>, Seq<char>)>
    decreases n,
{
    if n <= 0 {
        seq![]
    } else {
        match h[n - 1].1 {
            Some(v) => with_value(joined_headers(h, n - 1), lower_ascii_of(h[n - 1].0), v, 0),
            None => joined_headers(h, n - 1),
        }
    }
}

fn add_value(h: &mut Vec<(String, String)>, name: String, value: &str)
    ensures
        pairs(final(h)@) == with_value(pairs(old(h)@), name@, value@, 0),
{
    let ghost all = pairs(h@);
    let mut k: usize = 0;
    while k < h.len()
        invariant
            k <= h.len(),
            pairs(h@) == all,
            all == pairs(old(h)@),
            with_value(all, name@, value@, 0) == with_value(all, name@, value@, k as int),
        decreases h.len() - k,
    {
        assert(all[k as int] == (h@[k as int].0@, h@[k as int].1@));
        if same(h[k].0.as_str(), name.as_str()) {
            let joined = crate::util::chars::concat3(h[k].1.as_str(), ", ", value);
            let ghost x = (name@, joined@);
            h.set(k, (name, joined));
            assert(pairs(h@) =~= all.update(k as int, x));
            return;
        }
        k = k + 1;
    }
    let ghost x = (name@, value@);
    h.push((name, copy(value)));
    assert(pairs(h@) =~= all.push(x));
}

pub fn join_headers(h: &Vec<(String, Option<String>)>) -> (r: Vec<(String, String)>)
    ensures
        pairs(r@) == joined_headers(raw_headers(h@), h.len() as int),
{
    let ghost all = raw_headers(h@);
    let mut r: Vec<(String, String)> = Vec::new();
    let mut k: usize = 0;
    assert(pairs(r@) =~= seq![]);
    while k < h.len()
        invariant
            k <= h.len(),
            all == raw_headers(h@),
            pairs(r@) == joined_headers(all, k as int),
        decreases h.len() - k,
    {
        assert(all[k as int] == (h@[k as int].0@, opt_text(h@[k as int].1)));
        if let Some(v) = &h[k].1 {
            add_value(&mut r, to_ascii_lowercase(h[k].0.as_str()), v.as_str());
        }
        k = k + 1;
    }
    r
}

/// How many bytes a character takes in UTF-8.
pub open spec fn utf8_len(c: char) -> int {
    if code_of(c) < 0x80 {
        1
    } else if code_of(c) < 0x800 {
        2
    } else if code_of(c) < 0x10000 {
        3
    } else {
        4
    }
}

/// The end of the longest run of characters from `i` on that fits in the bytes left.
pub open spec fn fitting_end(s: Seq<char>, i: int, left: int) -> int
    decreases s.len() - i,
{
    if 0 <= i < s.len() && utf8_len(s[i]) <= left {
        fitting_end(s, i + 1, left - utf8_len(s[i]))
    } else {
        i
    }
}

/// The characters at the start of a text that fit in 4096 bytes.
pub open spec fn snippet_of(body: Seq<char>) -> Seq<char> {
    body.subrange(0, fitting_end(body, 0, 4096))
}

pub fn response_body_snippet(body: &str) -> (r: String)
    ensures
        r@ == snippet_of(body@),
{
    let v = chars_of(body);
    let mut left: u32 = 4096;
    let mut i: usize = 0;
    while i < v.len()
        invariant
            v@ == body@,
            i <= v.len(),
            fitting_end(body@, 0, 4096) == fitting_end(body@, i as int, left as int),
        decreases v.len() - i,
    {
        let n = char_code(v[i]);
        let size: u32 = if n < 0x80 {
            1
        } else if n < 0x800 {
            2
        } else if n < 0x10000 {
            3
        } else {
            4
        };
        if size > left {
            return string_range(&v, 0, i);
        }
        left = left - size;
        i = i + 1;
    }
    string_range(&v, 0, i)
}

pub open spec fn challenge(kind: Seq<char>, message: Seq<char>, status: u16, url: Seq<char>, mode: Seq<char>) -> FaultV {
    FaultV::AuthChallenge { kind, message, status: Some(status), url, mode, login_url: None, action_url: None }
}

/// Whether a response is a Cloudflare challenge: by its header or its text, or
/// a refusal by that server.
pub open spec fn is_cloudflare(status: u16, h: Seq<(Seq<char>, Option<Seq<char>>)>, text: Seq<char>) -> bool {
    ||| match header_from(h, "cf-mitigated"@, 0) {
        Some(v) => same_name(v, "challenge"@),
        None => false,
    }
    ||| contains_text(text, "challenges.cloudflare.com"@)
    ||| contains_text(text, "cf-chl-bypass"@)
    ||| contains_text(text, "<title>Just a moment..."@)
    ||| contains_text(text, "Attention Required! | Cloudflare"@)
    ||| match header_from(h, "server"@, 0) {
        Some(v) => contains_text(lower_ascii_of(v), "cloudflare"@) && (status == 403 || status == 503),
        None => false,
    }
}

pub open spec fn is_captcha(text: Seq<char>) -> bool {
    ||| contains_text(text, "geetest"@)
    ||| contains_text(text, "vaptcha"@)
    ||| contains_text(text, "滑块验证"@)
    ||| contains_text(text, "人机安全验证"@)
    ||| contains_text(text, "verify_code"@)
}

/// The challenge that a response is, if it is one.
pub open spec fn challenge_of(
    status: u16,
    h: Seq<(Seq<char>, Option<Seq<char>>)>,
    text: Seq<char>,
    url: Seq<char>,
) -> Option<FaultV> {
    if is_cloudflare(status, h, text) {
        Some(challenge("waf_challenge"@, "源站触发 Cloudflare 人机防护挑战"@, status, url, "cloudflare"@))
    } else if is_captcha(text) {
        Some(challenge("waf_challenge"@, "源站触发验证码/滑块人机验证"@, status, url, "captcha"@))
    } else if status == 401 {
        Some(challenge("auth_required"@, "HTTP 401 鉴权失效，需要登录"@, status, url, "form"@))
    } else if status == 403 {
        Some(challenge("auth_required"@, "HTTP 403 访问被拒绝，可能需要重新登录"@, status, url, "form"@))
    } else {
        None
    }
}

pub open spec fn opt_fault(o: Option<FetchError>) -> Option<FaultV> {
    match o {
        Some(e) => Some(e.model()),
        None => None,
    }
}

pub fn make_challenge(kind: &str, message: &str, status: u16, url: &str, mode: &str) -> (r: Option<FetchError>)
    ensures
        opt_fault(r) == Some(challenge(kind@, message@, status, url@, mode@)),
{
    Some(
        FetchError::AuthChallenge {
            kind: copy(kind),
            message: copy(message),
            status: Some(status),
            url: copy(url),
            mode: copy(mode),
            login_url: None,
            action_url: None,
        },
    )
}

/// Tells whether a response is a challenge, and which.
pub fn detect_auth_challenge(status: u16, headers: &Vec<(String, Option<String>)>, text: &str, url: &str) -> (r: Option<
    FetchError,
>)
    ensures
        opt_fault(r) == challenge_of(status, raw_headers(headers@), text@, url@),
{
    let mitigated = match header_text(headers, "cf-mitigated") {
        Some(v) => eq_ignore_ascii_case(v.as_str(), "challenge"),
        None => false,
    };
    let refused = match header_text(headers, "server") {
        Some(v) => contains(to_ascii_lowercase(v.as_str()).as_str(), "cloudflare") && (status == 403 || status == 503),
        None => false,
    };
    if mitigated || contains(text, "challenges.cloudflare.com") || contains(text, "cf-chl-bypass") || contains(
        text,
        "<title>Just a moment...",
    ) || contains(text, "Attention Required! | Cloudflare") || refused {
        return make_challenge("waf_challenge", "源站触发 Cloudflare 人机防护挑战", status, url, "cloudflare");
    }
    if contains(text, "geetest") || contains(text, "vaptcha") || contains(text, "滑块验证") || contains(
        text,
        "人机安全验证",
    ) || contains(text, "verify_code") {
        return make_challenge("waf_challenge", "源站触发验证码/滑块人机验证", status, url, "captcha");
    }
    if status == 401 {
        return make_challenge("auth_required", "HTTP 401 鉴权失效，需要登录", status, url, "form");
    }
    if status == 403 {
        return make_challenge("auth_required", "HTTP 403 访问被拒绝，可能需要重新登录", status, url, "form");
    }
    None
}

/// Whether a content type is XML.
pub open spec fn is_xml_type(content_type: Seq<char>) -> bool {
    let mime = lower_ascii_of(trim_of(split_of(content_type, ";"@)[0]));
    mime == "text/xml"@ || mime == "application/xml"@ || has_suffix(mime, "+xml"@)
}

pub fn is_xml_content_type(content_type: &str) -> (r: bool)
    ensures
        r == is_xml_type(content_type@),
{
    proof {
        reveal_strlit(";");
    }
    let parts = split(content_type, ";");
    assert(texts(parts@)[0] == parts@[0]@);
    let mime = to_ascii_lowercase(trim(parts[0].as_str()).as_str());
    same(mime.as_str(), "text/xml") || same(mime.as_str(), "application/xml") || ends_with(mime.as_str(), "+xml")
}

/// The text of a response: its bytes in hexadecimal digits where a type is
/// asked for, XML with its declaration, all else as it is.
pub open spec fn body_text(
    raw: Seq<u8>,
    decoded: Seq<char>,
    content_type: Option<Seq<char>>,
    response_type: Option<Seq<char>>,
) -> Seq<char> {
    if trim_of(or_blank(response_type)).len() > 0 {
        hex_text(raw)
    } else if content_type is Some && is_xml_type(content_type->0) && !has_prefix(decoded, "<?xml"@) {
        "<?xml version=\"1.0\"?>"@ + decoded
    } else {
        decoded
    }
}

pub fn format_response_body(
    raw_body: &Vec<u8>,
    decoded_body: String,
    content_type: Option<&str>,
    response_type: Option<&str>,
) -> (r: String)
    ensures
        r@ == body_text(raw_body@, decoded_body@, opt_str(content_type), opt_str(response_type)),
{
    proof {
        crate::util::chars::lemma_trim_len(seq![]);
    }
    if let Some(t) = response_type {
        if !is_empty_text(trim(t).as_str()) {
            return to_hex(raw_body);
        }
    }
    if let Some(t) = content_type {
        if is_xml_content_type(t) && !starts_with(decoded_body.as_str(), "<?xml") {
            return concat("<?xml version=\"1.0\"?>", decoded_body.as_str());
        }
    }
    decoded_body
}

/// The charset that a part of a content type names.
pub open spec fn charset_part(part: Seq<char>) -> Option<Seq<char>> {
    match split_once_of(part, "="@) {
        Some((n, v)) => if same_name(trim_of(n), "charset"@) {
            Some(without_quotes(trim_of(v)))
        } else {
            None
        },
        None => None,
    }
}

pub open spec fn charset_in(parts: Seq<Seq<char>>, k: int) -> Option<Seq<char>>
    decreases parts.len() - k,
{
    if k < 0 || k >= parts.len() {
        None
    } else {
        match charset_part(parts[k]) {
            Some(c) => Some(c),
            None => charset_in(parts, k + 1),
        }
    }
}

/// The charset that a content type names.
pub open spec fn header_charset(content_type: Option<Seq<char>>) -> Option<Seq<char>> {
    match content_type {
        Some(t) => charset_in(split_of(t, ";"@), 0),
        None => None,
    }
}

pub fn charset_from_content_type(content_type: Option<&str>) -> (r: Option<String>)
    ensures
        opt_text(r) == header_charset(opt_str(content_type)),
{
    let t = match content_type {
        Some(t) => t,
        None => {
            return None;
        },
    };
    proof {
        reveal_strlit(";");
    }
    let parts = split(t, ";");
    let ghost all = split_of(t@, ";"@);
    let mut k: usize = 0;
    while k < parts.len()
        invariant
            k <= parts.len(),
            all == texts(parts@),
            header_charset(opt_str(content_type)) == charset_in(all, k as int),
        decreases parts.len() - k,
    {
        assert(all[k as int] == parts@[k as int]@);
        if let Some((n, v)) = split_once(parts[k].as_str(), "=") {
            if eq_ignore_ascii_case(trim(n.as_str()).as_str(), "charset") {
                return Some(trim_quotes(trim(v.as_str()).as_str()));
            }
        }
        k = k + 1;
    }
    assert(all.len() == parts.len());
    None
}

pub open spec fn bytes_at_start(b: Seq<u8>, p: Seq<u8>) -> bool {
    p.len() <= b.len() && b.subrange(0, p.len() as int) == p
}

/// The encoding that a byte order mark tells, and the bytes after it.
pub open spec fn marked_encoding(b: Seq<u8>) -> Option<(Seq<char>, Seq<u8>)> {
    if bytes_at_start(b, seq![0xEFu8, 0xBBu8, 0xBFu8]) {
        Some(("UTF-8"@, b.subrange(3, b.len() as int)))
    } else if bytes_at_start(b, seq![0xFFu8, 0xFEu8]) {
        Some(("UTF-16LE"@, b.subrange(2, b.len() as int)))
    } else if bytes_at_start(b, seq![0xFEu8, 0xFFu8]) {
        Some(("UTF-16BE"@, b.subrange(2, b.len() as int)))
    } else {
        None
    }
}

/// The label of the encoding that a byte order mark tells.
pub open spec fn marked_label(b: Seq<u8>) -> Seq<char> {
    match marked_encoding(b) {
        Some((label, _)) => label,
        None => seq![],
    }
}

/// The bytes after the byte order mark.
pub open spec fn marked_rest(b: Seq<u8>) -> Seq<u8> {
    match marked_encoding(b) {
        Some((_, rest)) => rest,
        None => b,
    }
}

fn tail_bytes(b: &Vec<u8>, from: usize) -> (r: Vec<u8>)
    requires
        from <= b.len(),
    ensures
        r@ == b@.subrange(from as int, b.len() as int),
{
    let mut r: Vec<u8> = Vec::new();
    let mut i: usize = from;
    while i < b.len()
        invariant
            from <= i <= b.len(),
            r@ =~= b@.subrange(from as int, i as int),
        decreases b.len() - i,
    {
        r.push(b[i]);
        i = i + 1;
    }
    r
}

fn head_bytes(b: &Vec<u8>, n: usize) -> (r: Vec<u8>)
    requires
        n <= b.len(),
    ensures
        r@ == b@.subrange(0, n as int),
{
    let mut r: Vec<u8> = Vec::new();
    let mut i: usize = 0;
    while i < n
        invariant
            i <= n <= b.len(),
            r@ =~= b@.subrange(0, i as int),
        decreases n - i,
    {
        r.push(b[i]);
        i = i + 1;
    }
    r
}

pub fn charset_from_bom(b: &Vec<u8>) -> (r: Option<(&'static str, Vec<u8>)>)
    ensures
        match r {
            Some((label, rest)) => marked_encoding(b@) == Some((label@, rest@)) && (label@ == "UTF-8"@ || label@
                == "UTF-16LE"@ || label@ == "UTF-16BE"@),
            None => marked_encoding(b@) is None,
        },
{
    let ghost three = seq![0xEFu8, 0xBBu8, 0xBFu8];
    let ghost le = seq![0xFFu8, 0xFEu8];
    let ghost be = seq![0xFEu8, 0xFFu8];
    if b.len() >= 3 && b[0] == 0xEF && b[1] == 0xBB && b[2] == 0xBF {
        assert(b@.subrange(0, 3) =~= three);
        return Some(("UTF-8", tail_bytes(b, 3)));
    }
    assert(!bytes_at_start(b@, three)) by {
        if bytes_at_start(b@, three) {
            assert(b@.subrange(0, 3)[0] == 0xEF && b@.subrange(0, 3)[1] == 0xBB && b@.subrange(0, 3)[2] == 0xBF);
        }
    }
    if b.len() >= 2 && b[0] == 0xFF && b[1] == 0xFE {
        assert(b@.subrange(0, 2) =~= le);
        return Some(("UTF-16LE", tail_bytes(b, 2)));
    }
    assert(!bytes_at_start(b@, le)) by {
        if bytes_at_start(b@, le) {
            assert(b@.subrange(0, 2)[0] == 0xFF && b@.subrange(0, 2)[1] == 0xFE);
        }
    }
    if b.len() >= 2 && b[0] == 0xFE && b[1] == 0xFF {
        assert(b@.subrange(0, 2) =~= be);
        return Some(("UTF-16BE", tail_bytes(b, 2)));
    }
    assert(!bytes_at_start(b@, be)) by {
        if bytes_at_start(b@, be) {
            assert(b@.subrange(0, 2)[0] == 0xFE && b@.subrange(0, 2)[1] == 0xFF);
        }
    }
    None
}

/// The value of the last of the first `n` attributes that has that name.
pub open spec fn meta_attribute(found: Seq<FoundV>, name: Seq<char>, n: int) -> Option<Seq<char>>
    decreases n,
{
    if n <= 0 {
        None
    } else if same_name(group_text(found[n - 1].groups, 1), name) {
        Some(attribute_value(found[n - 1].groups))
    } else {
        meta_attribute(found, name, n - 1)
    }
}

/// The value of an attribute, in double quotes, in single quotes or bare.
pub open spec fn attribute_value(groups: Seq<Option<Seq<char>>>) -> Seq<char> {
    if groups.len() > 2 && groups[2] is Some {
        groups[2]->0
    } else if groups.len() > 3 && groups[3] is Some {
        groups[3]->0
    } else {
        group_text(groups, 4)
    }
}

pub fn value_of_attribute(groups: &Vec<Option<String>>) -> (r: String)
    ensures
        r@ == attribute_value(opt_texts(groups@)),
{
    if groups.len() > 2 {
        assert(opt_texts(groups@)[2] == opt_text(groups@[2]));
        if let Some(t) = &groups[2] {
            return t.clone();
        }
    }
    if groups.len() > 3 {
        assert(opt_texts(groups@)[3] == opt_text(groups@[3]));
        if let Some(t) = &groups[3] {
            return t.clone();
        }
    }
    group_at(groups, 4)
}

pub fn find_meta_attribute(m: &Matches, name: &str) -> (r: Option<String>)
    ensures
        opt_text(r) == meta_attribute(m.model().found, name@, m.found.len() as int),
{
    let ghost all = m.model().found;
    let mut k: usize = m.found.len();
    while k > 0
        invariant
            k <= m.found.len(),
            all == m.model().found,
            meta_attribute(all, name@, m.found.len() as int) == meta_attribute(all, name@, k as int),
        decreases k,
    {
        assert(all[k - 1] == m.found@[k - 1].model());
        if eq_ignore_ascii_case(group_at(&m.found[k - 1].groups, 1).as_str(), name) {
            return Some(value_of_attribute(&m.found[k - 1].groups));
        }
        k = k - 1;
    }
    None
}

/// The charset among the attributes of a tag, if there is one that is not blank.
pub open spec fn direct_charset(found: Seq<FoundV>) -> Option<Seq<char>> {
    let direct = trim_of(or_blank(meta_attribute(found, "charset"@, found.len() as int)));
    if direct.len() > 0 {
        Some(direct)
    } else {
        None
    }
}

pub fn find_direct_charset(m: &Matches) -> (r: Option<String>)
    ensures
        opt_text(r) == direct_charset(m.model().found),
{
    assert(m.model().found.len() == m.found.len());
    let direct = trim(text_or_blank(find_meta_attribute(m, "charset")).as_str());
    if is_empty_text(direct.as_str()) {
        None
    } else {
        Some(direct)
    }
}

/// The content type among the attributes of a tag that stands for a header.
pub open spec fn declared_type(found: Seq<FoundV>) -> Option<Seq<char>> {
    let n = found.len() as int;
    match meta_attribute(found, "http-equiv"@, n) {
        Some(e) => if same_name(e, "content-type"@) {
            meta_attribute(found, "content"@, n)
        } else {
            None
        },
        None => None,
    }
}

pub fn find_declared_type(m: &Matches) -> (r: Option<String>)
    ensures
        opt_text(r) == declared_type(m.model().found),
{
    assert(m.model().found.len() == m.found.len());
    if let Some(e) = find_meta_attribute(m, "http-equiv") {
        if eq_ignore_ascii_case(e.as_str(), "content-type") {
            return find_meta_attribute(m, "content");
        }
    }
    None
}

/// The charset that a `meta` tag declares, directly or as a content type.
pub open spec fn tag_charset(tag: Seq<char>) -> Option<Seq<char>> {
    match regex_matches("(?is)([a-z_:][a-z0-9_:.-]*)\\s*=\\s*(?:\"([^\"]*)\"|'([^']*)'|([^\\s>]+))"@, tag) {
        Some(m) => match direct_charset(m.found) {
            Some(c) => Some(c),
            None => match declared_type(m.found) {
                Some(c) => match regex_matches("(?i)charset\\s*=\\s*[\"']?([a-z0-9._:-]+)"@, c) {
                    Some(x) => first_group(x, 1),
                    None => None,
                },
                None => None,
            },
        },
        None => None,
    }
}

pub fn charset_of_tag(tag: &str) -> (r: Option<String>)
    ensures
        opt_text(r) == tag_charset(tag@),
{
    let m = match find_matches("(?is)([a-z_:][a-z0-9_:.-]*)\\s*=\\s*(?:\"([^\"]*)\"|'([^']*)'|([^\\s>]+))", tag) {
        Some(m) => m,
        None => {
            return None;
        },
    };
    if let Some(c) = find_direct_charset(&m) {
        return Some(c);
    }
    match find_declared_type(&m) {
        Some(c) => match find_matches("(?i)charset\\s*=\\s*[\"']?([a-z0-9._:-]+)", c.as_str()) {
            Some(x) => group_of_first(&x, 1),
            None => None,
        },
        None => None,
    }
}

pub open spec fn first_tag_charset(found: Seq<FoundV>, k: int) -> Option<Seq<char>>
    decreases found.len() - k,
{
    if k < 0 || k >= found.len() {
        None
    } else {
        match tag_charset(group_text(found[k].groups, 0)) {
            Some(c) => Some(c),
            None => first_tag_charset(found, k + 1),
        }
    }
}

/// The charset that the `meta` tags at the start of a page declare.
pub open spec fn meta_charset(b: Seq<u8>) -> Option<Seq<char>> {
    let head = if b.len() <= 4096 {
        b
    } else {
        b.subrange(0, 4096)
    };
    match regex_matches("(?is)<meta\\b[^>]*>"@, lossy_text(head)) {
        Some(m) => first_tag_charset(m.found, 0),
        None => None,
    }
}

/// The charset that the first of the tags declares which declares one.
pub fn find_tag_charset(m: &Matches) -> (r: Option<String>)
    ensures
        opt_text(r) == first_tag_charset(m.model().found, 0),
{
    let ghost all = found_models(m.found@);
    let mut k: usize = 0;
    while k < m.found.len()
        invariant
            k <= m.found.len(),
            all == found_models(m.found@),
            first_tag_charset(all, 0) == first_tag_charset(all, k as int),
        decreases m.found.len() - k,
    {
        assert(all[k as int] == m.found@[k as int].model());
        if let Some(c) = charset_of_tag(group_at(&m.found[k].groups, 0).as_str()) {
            return Some(c);
        }
        k = k + 1;
    }
    assert(all.len() == m.found.len());
    None
}

pub fn charset_from_html_meta(b: &Vec<u8>) -> (r: Option<String>)
    ensures
        opt_text(r) == meta_charset(b@),
{
    let n: usize = if b.len() <= 4096 {
        b.len()
    } else {
        4096
    };
    let head = head_bytes(b, n);
    assert(b@.subrange(0, b.len() as int) =~= b@);
    match find_matches("(?is)<meta\\b[^>]*>", read_lossy(&head).as_str()) {
        Some(m) => find_tag_charset(&m),
        None => None,
    }
}

/// The text of bytes in the encoding of a label, if it is known and they are
/// well formed in it.
pub open spec fn clean_text(label: Option<Seq<char>>, b: Seq<u8>) -> Option<Seq<char>> {
    match label {
        Some(l) => if encoding_of(l) is Some && !decoded_as(l, b).1 {
            Some(decoded_as(l, b).0)
        } else {
            None
        },
        None => None,
    }
}

pub fn decode_clean(label: &Option<String>, b: &Vec<u8>) -> (r: Option<String>)
    ensures
        opt_text(r) == clean_text(opt_text(*label), b@),
{
    if let Some(l) = label {
        if encoding_for_label(l.as_str()).is_some() {
            let (text, malformed) = decode_text(l.as_str(), b);
            if !malformed {
                return Some(text);
            }
        }
    }
    None
}

/// The text of a response. A known charset of the request decides; then a byte
/// order mark; then, as long as the bytes are well formed in it, the charset of
/// the header, that of the page, UTF-8, and the one that the bytes look like.
pub open spec fn decoded_body(b: Seq<u8>, charset: Option<Seq<char>>, content_type: Option<Seq<char>>) -> Seq<char> {
    if charset is Some && encoding_of(charset->0) is Some {
        decoded_as(charset->0, b).0
    } else if marked_encoding(b) is Some {
        decoded_as(marked_label(b), marked_rest(b)).0
    } else if clean_text(header_charset(content_type), b) is Some {
        clean_text(header_charset(content_type), b)->0
    } else if clean_text(meta_charset(b), b) is Some {
        clean_text(meta_charset(b), b)->0
    } else if utf8_of(b) is Some {
        utf8_of(b)->0
    } else if clean_text(Some(guessed_encoding(b)), b) is Some {
        clean_text(Some(guessed_encoding(b)), b)->0
    } else {
        lossy_text(b)
    }
}

/// Decodes the body of a response.
pub fn decode_body(bytes: &Vec<u8>, charset: Option<&str>, content_type: Option<&str>) -> (r: String)
    ensures
        r@ == decoded_body(bytes@, opt_str(charset), opt_str(content_type)),
{
    if let Some(c) = charset {
        if encoding_for_label(c).is_some() {
            return decode_text(c, bytes).0;
        }
    }
    if let Some((label, rest)) = charset_from_bom(bytes) {
        let _ = encoding_for_label(label);
        return decode_text(label, &rest).0;
    }
    if let Some(t) = decode_clean(&charset_from_content_type(content_type), bytes) {
        return t;
    }
    if let Some(t) = decode_clean(&charset_from_html_meta(bytes), bytes) {
        return t;
    }
    if let Some(t) = utf8_text(bytes) {
        return t;
    }
    if let Some(t) = decode_clean(&Some(guess_encoding(bytes)), bytes) {
        return t;
    }
    read_lossy(bytes)
}

/// What came of sending a request.
#[derive(Debug)]
pub enum Outcome {
    Answer(RawResponse),
    InvalidUrl(String),
    Timeout(String),
    Network(String),
    TooLarge { url: String, limit: usize },
}

pub enum OutcomeV {
    Answer(RawV),
    InvalidUrl(Seq<char>),
    Timeout(Seq<char>),
    Network(Seq<char>),
    TooLarge { url: Seq<char>, limit: usize },
}

impl Outcome {
    pub open spec fn model(self) -> OutcomeV {
        match self {
            Outcome::Answer(r) => OutcomeV::Answer(r.model()),
            Outcome::InvalidUrl(m) => OutcomeV::InvalidUrl(m@),
            Outcome::Timeout(m) => OutcomeV::Timeout(m@),
            Outcome::Network(m) => OutcomeV::Network(m@),
            Outcome::TooLarge { url, limit } => OutcomeV::TooLarge { url: url@, limit },
        }
    }
}

/// What a response is taken for: an error, or a response with its text.
pub open spec fn judged_response(r: RawV, charset: Option<Seq<char>>, response_type: Option<Seq<char>>) -> Result<
    HttpV,
    FaultV,
> {
    let content_type = header_from(r.headers, "content-type"@, 0);
    judged_text(r, decoded_body(r.body, charset, content_type), response_type)
}

/// What a response with a text is taken for.
pub open spec fn judged_text(r: RawV, text: Seq<char>, response_type: Option<Seq<char>>) -> Result<HttpV, FaultV> {
    let content_type = header_from(r.headers, "content-type"@, 0);
    match challenge_of(r.status, r.headers, snippet_of(text), r.url) {
        Some(e) => Err(e),
        None => if 200 <= r.status < 300 {
            Ok(
                HttpV {
                    url: r.url,
                    status: r.status,
                    headers: joined_headers(r.headers, r.headers.len() as int),
                    body: body_text(r.body, text, content_type, response_type),
                },
            )
        } else {
            Err(FaultV::HttpStatus { status: r.status, url: r.url })
        },
    }
}

/// What is done after an attempt: `None` tries again, all else is the end. A
/// server's error, a timeout and a failed connection are tried again as long as
/// attempts are left.
pub open spec fn judged(
    o: OutcomeV,
    url: Seq<char>,
    charset: Option<Seq<char>>,
    response_type: Option<Seq<char>>,
    last: bool,
) -> Option<Result<HttpV, FaultV>> {
    match o {
        OutcomeV::Answer(r) => {
            let j = judged_response(r, charset, response_type);
            if j is Err && j->Err_0 is HttpStatus && r.status >= 500 && !last {
                None
            } else {
                Some(j)
            }
        },
        OutcomeV::InvalidUrl(m) => Some(Err(FaultV::InvalidUrl(m))),
        OutcomeV::TooLarge { url, limit } => Some(Err(FaultV::ResponseTooLarge { url, limit })),
        OutcomeV::Timeout(m) => if last {
            Some(Err(FaultV::Timeout { url: Some(url), message: m }))
        } else {
            None
        },
        OutcomeV::Network(m) => if last {
            Some(Err(FaultV::Network(m)))
        } else {
            None
        },
    }
}

pub open spec fn http_result(r: Result<HttpResponse, FetchError>) -> Result<HttpV, FaultV> {
    match r {
        Ok(x) => Ok(x.model()),
        Err(e) => Err(e.model()),
    }
}

pub open spec fn opt_http_result(o: Option<Result<HttpResponse, FetchError>>) -> Option<Result<HttpV, FaultV>> {
    match o {
        Some(r) => Some(http_result(r)),
        None => None,
    }
}

fn opt_ref(o: &Option<String>) -> (r: Option<&str>)
    ensures
        opt_str(r) == opt_text(*o),
{
    match o {
        Some(s) => Some(s.as_str()),
        None => None,
    }
}

/// Takes a response for an error or for its text.
pub fn judge_response(response: RawResponse, charset: Option<&str>, response_type: Option<&str>) -> (r: Result<
    HttpResponse,
    FetchError,
>)
    ensures
        http_result(r) == judged_response(response.model(), opt_str(charset), opt_str(response_type)),
{
    let content_type = header_text(&response.headers, "content-type");
    let text = decode_body(&response.body, charset, opt_ref(&content_type));
    judge_text(response, text, response_type)
}

/// Takes a response with a text for an error or for that text.
pub fn judge_text(response: RawResponse, text: String, response_type: Option<&str>) -> (r: Result<
    HttpResponse,
    FetchError,
>)
    ensures
        http_result(r) == judged_text(response.model(), text@, opt_str(response_type)),
{
    assert(raw_headers(response.headers@).len() == response.headers.len());
    let content_type = header_text(&response.headers, "content-type");
    let snippet = response_body_snippet(text.as_str());
    if let Some(e) = detect_auth_challenge(
        response.status,
        &response.headers,
        snippet.as_str(),
        response.url.as_str(),
    ) {
        return Err(e);
    }
    if response.status < 200 || response.status >= 300 {
        return Err(FetchError::HttpStatus { status: response.status, url: response.url });
    }
    let headers = join_headers(&response.headers);
    let body = format_response_body(&response.body, text, opt_ref(&content_type), response_type);
    Ok(HttpResponse { url: response.url, status: response.status, headers, body })
}

/// The attempts of one request: the number of the attempt, and of the last one.
pub struct FetchRun {
    attempt: usize,
    limit: usize,
}

impl FetchRun {
    pub closed spec fn attempt(&self) -> int {
        self.attempt as int
    }

    /// How often the request is tried again at most.
    pub closed spec fn limit(&self) -> int {
        self.limit as int
    }

    pub open spec fn wf(&self) -> bool {
        0 <= self.attempt() <= self.limit() <= 3
    }

    pub fn new(spec: &RequestSpec) -> (r: FetchRun)
        ensures
            r.wf(),
            r.attempt() == 0,
            r.limit() == if spec.retry < 3 {
                spec.retry as int
            } else {
                3
            },
    {
        let limit: usize = if spec.retry < 3 {
            spec.retry
        } else {
            3
        };
        FetchRun { attempt: 0, limit }
    }

    /// Takes what came of an attempt: the end of the request, or `None` for
    /// another attempt.
    pub fn feed(&mut self, spec: &RequestSpec, outcome: Outcome) -> (r: Option<Result<HttpResponse, FetchError>>)
        requires
            old(self).wf(),
        ensures
            opt_http_result(r) == judged(
                outcome.model(),
                spec.url@,
                opt_text(spec.charset),
                opt_text(spec.response_type),
                old(self).attempt() == old(self).limit(),
            ),
            final(self).wf(),
            final(self).limit() == old(self).limit(),
            r is None ==> final(self).attempt() == old(self).attempt() + 1,
            r is Some ==> final(self).attempt() == old(self).attempt(),
    {
        let last = self.attempt == self.limit;
        match outcome {
            Outcome::Answer(response) => {
                let status = response.status;
                let judged = judge_response(response, opt_ref(&spec.charset), opt_ref(&spec.response_type));
                if let Err(FetchError::HttpStatus { .. }) = &judged {
                    if status >= 500 && !last {
                        self.attempt = self.attempt + 1;
                        return None;
                    }
                }
                Some(judged)
            },
            Outcome::InvalidUrl(m) => Some(Err(FetchError::InvalidUrl(m))),
            Outcome::TooLarge { url, limit } => Some(Err(FetchError::ResponseTooLarge { url, limit })),
            Outcome::Timeout(message) => {
                if last {
                    return Some(Err(FetchError::Timeout { url: Some(spec.url.clone()), message }));
                }
                self.attempt = self.attempt + 1;
                None
            },
            Outcome::Network(m) => {
                if last {
                    return Some(Err(FetchError::Network(m)));
                }
                self.attempt = self.attempt + 1;
                None
            },
        }
    }
}

/// The last attempt of a request is its end, whatever comes of it.
pub proof fn law_last_attempt_ends(o: OutcomeV, url: Seq<char>, charset: Option<Seq<char>>, response_type: Option<Seq<char>>)
    ensures
        judged(o, url, charset, response_type, true) is Some,
{
}

/// A challenge is never taken for a page, whatever its status.
pub proof fn law_challenge_is_no_page(r: RawV, charset: Option<Seq<char>>, response_type: Option<Seq<char>>)
    requires
        r.status == 401 || r.status == 403,
    ensures
        judged_response(r, charset, response_type) is Err,
        judged_response(r, charset, response_type)->Err_0 is AuthChallenge,
{
}

} // verus!
