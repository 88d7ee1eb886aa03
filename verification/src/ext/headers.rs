//! The names and values that the headers of a request may have, as the `http`
//! crate, which `ureq` hands on, takes them, and the proxies that `ureq` takes.

use crate::util::chars::{code_of, is_ascii_letter, is_digit, lower_ascii_of, opt_text};
use vstd::prelude::*;

verus! {

/// Whether a character may stand in the name of a header.
pub open spec fn is_name_char(c: char) -> bool {
    is_ascii_letter(c) || is_digit(c) || "!#$%&'*+-.^_`|~"@.contains(c)
}

pub open spec fn is_header_name(s: Seq<char>) -> bool {
    0 < s.len() <= 65535 && forall|i: int| 0 <= i < s.len() ==> is_name_char(#[trigger] s[i])
}

/// Whether a character may stand in the value of a header.
pub open spec fn is_value_char(c: char) -> bool {
    c == '\t' || (code_of(c) >= 32 && code_of(c) != 127)
}

pub open spec fn is_header_value(s: Seq<char>) -> bool {
    forall|i: int| 0 <= i < s.len() ==> is_value_char(#[trigger] s[i])
}

/// `ureq::http::HeaderName::from_bytes`: a name in lower case, or what is said
/// of a text that is none.
#[verifier::external_body]
pub(crate) fn header_name(name: &str) -> (r: Result<String, String>)
    ensures
        match r {
            Ok(n) => is_header_name(name@) && n@ == lower_ascii_of(name@),
            Err(e) => !is_header_name(name@) && e@ == "invalid HTTP header name"@,
        },
{
    let read = ureq::http::HeaderName::from_bytes(name.as_bytes());
    read.map(|n| n.as_str().to_string()).map_err(|e| e.to_string())
}

/// `ureq::http::HeaderValue::from_str`: what is said of a text that is no value.
#[verifier::external_body]
pub(crate) fn header_value_fault(value: &str) -> (r: Option<String>)
    ensures
        r is None <==> is_header_value(value@),
        r is Some ==> r->0@ == "failed to parse header value"@,
{
    ureq::http::HeaderValue::from_str(value).err().map(|e| e.to_string())
}

/// What is said of a text that is no proxy; `None` for the address of one.
pub uninterp spec fn proxy_fault_of(text: Seq<char>) -> Option<Seq<char>>;

/// `ureq::Proxy::new`: what is said of a text that is no proxy.
#[verifier::external_body]
pub(crate) fn proxy_fault(text: &str) -> (r: Option<String>)
    ensures
        opt_text(r) == proxy_fault_of(text@),
{
    ureq::Proxy::new(text).err().map(|e| e.to_string())
}

/// The words that stand for a status, by the standard; none for one without.
pub uninterp spec fn status_words(status: int) -> Seq<char>;

/// `ureq::http::StatusCode::canonical_reason`.
#[verifier::external_body]
pub(crate) fn status_reason(status: u16) -> (r: String)
    ensures
        r@ == status_words(status as int),
{
    let code = ureq::http::StatusCode::from_u16(status).ok();
    code.and_then(|s| s.canonical_reason()).unwrap_or("").to_string()
}

} // verus!
