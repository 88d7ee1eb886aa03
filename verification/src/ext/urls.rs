//! URLs, as the `url` crate reads them.

use crate::util::bytes::{percent_bytes, percent_of, utf8_of};
use crate::util::chars::opt_text;
use vstd::prelude::*;
use vstd::utf8::encode_utf8;

verus! {

/// The parts of a URL as the `url` crate writes them. The port is the one that
/// is given, or the one that its scheme is known for.
pub struct UrlParts {
    pub href: String,
    pub scheme: String,
    pub host: Option<String>,
    pub port: Option<u16>,
    pub path: String,
    pub query: Option<String>,
}

pub struct UrlV {
    pub href: Seq<char>,
    pub scheme: Seq<char>,
    pub host: Option<Seq<char>>,
    pub port: Option<u16>,
    pub path: Seq<char>,
    pub query: Option<Seq<char>>,
}

impl UrlParts {
    pub open spec fn model(self) -> UrlV {
        UrlV {
            href: self.href@,
            scheme: self.scheme@,
            host: opt_text(self.host),
            port: self.port,
            path: self.path@,
            query: opt_text(self.query),
        }
    }
}

/// What the `url` crate reads from a text: the parts of a URL, or what it says
/// of a text that is none.
pub uninterp spec fn url_read(text: Seq<char>) -> Result<UrlV, Seq<char>>;

/// `url::Url::parse`, or the text of its error.
#[verifier::external_body]
pub(crate) fn parse_url(text: &str) -> (r: Result<UrlParts, String>)
    ensures
        match r {
            Ok(u) => url_read(text@) == Ok::<UrlV, Seq<char>>(u.model()),
            Err(e) => url_read(text@) == Err::<UrlV, Seq<char>>(e@),
        },
{
    let url = url::Url::parse(text).map_err(|e| e.to_string())?;
    Ok(UrlParts {
        href: url.to_string(),
        scheme: url.scheme().to_string(),
        host: url.host_str().map(|h| h.to_string()),
        port: url.port_or_known_default(),
        path: url.path().to_string(),
        query: url.query().map(|q| q.to_string()),
    })
}

/// The URL that `reference` stands for, seen from `base` without its fragment:
/// `None` where `base` is no URL, and what the `url` crate says where the two
/// cannot be joined.
pub uninterp spec fn url_joined(base: Seq<char>, reference: Seq<char>) -> Option<Result<Seq<char>, Seq<char>>>;

/// A URL written by the `url` crate without its fragment; `None` where the text
/// is no URL.
pub uninterp spec fn url_plain(text: Seq<char>) -> Option<Seq<char>>;

/// `url::Url::parse`, written back without the fragment.
#[verifier::external_body]
pub(crate) fn url_without_fragment(text: &str) -> (r: Option<String>)
    ensures
        opt_text(r) == url_plain(text@),
{
    let mut url = url::Url::parse(text).ok()?;
    url.set_fragment(None);
    Some(url.to_string())
}

/// `url::Url::join` on a parsed base whose fragment is taken off.
#[verifier::external_body]
pub(crate) fn join_url(base: &str, reference: &str) -> (r: Option<Result<String, String>>)
    ensures
        match r {
            Some(o) => url_joined(base@, reference@) == Some(crate::parser::script::result_text(o)),
            None => url_joined(base@, reference@) is None,
        },
{
    let mut url = url::Url::parse(base).ok()?;
    url.set_fragment(None);
    Some(url.join(reference).map(|u| u.to_string()).map_err(|e| e.to_string()))
}

/// `urlencoding::encode`: every byte but letters, digits and `-_.~` is encoded.
#[verifier::external_body]
pub(crate) fn percent_encode(text: &str) -> (r: String)
    ensures
        r@ == percent_of(encode_utf8(text@)),
{
    urlencoding::encode(text).into_owned()
}

/// A text with its `%XX` replaced by the bytes that they write; `None` where
/// the bytes are no UTF-8.
pub open spec fn percent_decoded(text: Seq<char>) -> Option<Seq<char>> {
    utf8_of(percent_bytes(encode_utf8(text)))
}

/// `urlencoding::decode`: `%` and two hexadecimal digits give a byte, all else
/// stays; the bytes are then read as UTF-8.
#[verifier::external_body]
pub(crate) fn percent_decode(text: &str) -> (r: Option<String>)
    ensures
        opt_text(r) == percent_decoded(text@),
{
    urlencoding::decode(text).ok().map(|t| t.into_owned())
}

} // verus!
