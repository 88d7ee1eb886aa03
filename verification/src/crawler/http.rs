//! One request from its first address to the response that ends it: which
//! headers are sent, and which redirects are followed.

use crate::crawler::response::{header_from, header_text, raw_headers};
use crate::crawler::url_rule::{contains_header, has_header, same_name, Method};
use crate::ext::headers::{header_name, header_value_fault, is_header_name, is_header_value};
use crate::ext::urls::{join_url, parse_url, url_joined, url_read, UrlParts, UrlV};
use crate::ext::xml::pairs;
use crate::util::chars::{concat, copy, eq_ignore_ascii_case, lower_ascii_of, opt_str, opt_text, same};
use vstd::prelude::*;
use vstd::string::*;

verus! {

/// Why a request could not be carried out.
#[derive(Debug)]
pub enum HttpClientError {
    InvalidUrl(String),
    Timeout(String),
    Network(String),
    ResponseTooLarge { url: String, limit: usize },
}

pub enum ClientFaultV {
    InvalidUrl(Seq<char>),
    Timeout(Seq<char>),
    Network(Seq<char>),
    ResponseTooLarge { url: Seq<char>, limit: usize },
}

impl HttpClientError {
    pub open spec fn model(self) -> ClientFaultV {
        match self {
            HttpClientError::InvalidUrl(m) => ClientFaultV::InvalidUrl(m@),
            HttpClientError::Timeout(m) => ClientFaultV::Timeout(m@),
            HttpClientError::Network(m) => ClientFaultV::Network(m@),
            HttpClientError::ResponseTooLarge { url, limit } => ClientFaultV::ResponseTooLarge { url: url@, limit },
        }
    }
}

/// How often a request is redirected at most.
pub const MAX_REDIRECTS: usize = 5;

pub open spec fn is_web_scheme(scheme: Seq<char>) -> bool {
    scheme == "http"@ || scheme == "https"@
}

pub open spec fn scheme_fault(scheme: Seq<char>) -> ClientFaultV {
    ClientFaultV::InvalidUrl("unsupported URL scheme: "@ + scheme)
}

pub fn ensure_http_url(url: &UrlParts) -> (r: Option<HttpClientError>)
    ensures
        match r {
            None => is_web_scheme(url.model().scheme),
            Some(e) => !is_web_scheme(url.model().scheme) && e.model() == scheme_fault(url.model().scheme),
        },
{
    if same(url.scheme.as_str(), "http") || same(url.scheme.as_str(), "https") {
        return None;
    }
    Some(HttpClientError::InvalidUrl(concat("unsupported URL scheme: ", url.scheme.as_str())))
}

/// Whether two addresses have the same scheme, host and port.
pub open spec fn is_same_origin(a: UrlV, b: UrlV) -> bool {
    a.scheme == b.scheme && a.host == b.host && a.port == b.port
}

pub fn opt_same(a: &Option<String>, b: &Option<String>) -> (r: bool)
    ensures
        r == (opt_text(*a) == opt_text(*b)),
{
    match (a, b) {
        (Some(x), Some(y)) => same(x.as_str(), y.as_str()),
        (None, None) => true,
        _ => false,
    }
}

pub fn same_origin(left: &UrlParts, right: &UrlParts) -> (r: bool)
    ensures
        r == is_same_origin(left.model(), right.model()),
{
    let ports = match (left.port, right.port) {
        (Some(a), Some(b)) => a == b,
        (None, None) => true,
        _ => false,
    };
    same(left.scheme.as_str(), right.scheme.as_str()) && opt_same(&left.host, &right.host) && ports
}

/// What the `n`-th header breaks, if it does.
pub open spec fn header_fault(h: (Seq<char>, Seq<char>)) -> Option<Seq<char>> {
    if !is_header_name(h.0) {
        Some("invalid HTTP header name"@)
    } else if !is_header_value(h.1) {
        Some("failed to parse header value"@)
    } else {
        None
    }
}

/// The first fault of the headers, from position `k` on.
pub open spec fn headers_fault(h: Seq<(Seq<char>, Seq<char>)>, k: int) -> Option<Seq<char>>
    decreases h.len() - k,
{
    if k < 0 || k >= h.len() {
        None
    } else {
        match header_fault(h[k]) {
            Some(e) => Some(e),
            None => headers_fault(h, k + 1),
        }
    }
}

/// Headers with their names in lower case.
pub open spec fn lower_names(h: Seq<(Seq<char>, Seq<char>)>) -> Seq<(Seq<char>, Seq<char>)> {
    Seq::new(h.len(), |i: int| (lower_ascii_of(h[i].0), h[i].1))
}

pub fn header_map(headers: &Vec<(String, String)>) -> (r: Result<Vec<(String, String)>, HttpClientError>)
    ensures
        match r {
            Ok(h) => headers_fault(pairs(headers@), 0) is None && pairs(h@) == lower_names(pairs(headers@)),
            Err(e) => headers_fault(pairs(headers@), 0) is Some && e.model() == ClientFaultV::Network(
                headers_fault(pairs(headers@), 0)->0,
            ),
        },
{
    let ghost all = pairs(headers@);
    let mut r: Vec<(String, String)> = Vec::new();
    let mut k: usize = 0;
    while k < headers.len()
        invariant
            k <= headers.len(),
            all == pairs(headers@),
            pairs(r@) =~= lower_names(all).take(k as int),
            headers_fault(all, 0) == headers_fault(all, k as int),
        decreases headers.len() - k,
    {
        assert(all[k as int] == (headers@[k as int].0@, headers@[k as int].1@));
        let name = match header_name(headers[k].0.as_str()) {
            Ok(n) => n,
            Err(e) => {
                return Err(HttpClientError::Network(e));
            },
        };
        if let Some(e) = header_value_fault(headers[k].1.as_str()) {
            return Err(HttpClientError::Network(e));
        }
        let ghost before = pairs(r@);
        let ghost x = (name@, all[k as int].1);
        r.push((name, headers[k].1.clone()));
        assert(pairs(r@) =~= before.push(x));
        k = k + 1;
    }
    assert(lower_names(all).take(k as int) =~= lower_names(all));
    Ok(r)
}

/// Whether a header tells who sends the request.
pub open spec fn is_sensitive(name: Seq<char>) -> bool {
    same_name(name, "authorization"@) || same_name(name, "cookie"@) || same_name(name, "proxy-authorization"@) || same_name(
        name,
        "www-authenticate"@,
    )
}

/// Whether a header tells of the body.
pub open spec fn is_of_body(name: Seq<char>) -> bool {
    same_name(name, "content-length"@) || same_name(name, "content-type"@) || same_name(name, "transfer-encoding"@)
}

/// The first `n` headers without those that are sensitive, or of the body, as asked for.
pub open spec fn stripped(h: Seq<(Seq<char>, Seq<char>)>, sensitive: bool, of_body: bool, n: int) -> Seq<
    (Seq<char>, Seq<char>),
>
    decreases n,
{
    if n <= 0 {
        seq![]
    } else {
        let before = stripped(h, sensitive, of_body, n - 1);
        if (sensitive && is_sensitive(h[n - 1].0)) || (of_body && is_of_body(h[n - 1].0)) {
            before
        } else {
            before.push(h[n - 1])
        }
    }
}

pub fn strip_headers(h: &Vec<(String, String)>, sensitive: bool, of_body: bool) -> (r: Vec<(String, String)>)
    ensures
        pairs(r@) == stripped(pairs(h@), sensitive, of_body, h.len() as int),
{
    let ghost all = pairs(h@);
    let mut r: Vec<(String, String)> = Vec::new();
    let mut k: usize = 0;
    assert(pairs(r@) =~= seq![]);
    while k < h.len()
        invariant
            k <= h.len(),
            all == pairs(h@),
            pairs(r@) == stripped(all, sensitive, of_body, k as int),
        decreases h.len() - k,
    {
        assert(all[k as int] == (h@[k as int].0@, h@[k as int].1@));
        let name = h[k].0.as_str();
        let private = eq_ignore_ascii_case(name, "authorization") || eq_ignore_ascii_case(name, "cookie")
            || eq_ignore_ascii_case(name, "proxy-authorization") || eq_ignore_ascii_case(name, "www-authenticate");
        let describes = eq_ignore_ascii_case(name, "content-length") || eq_ignore_ascii_case(name, "content-type")
            || eq_ignore_ascii_case(name, "transfer-encoding");
        if !((sensitive && private) || (of_body && describes)) {
            let ghost before = pairs(r@);
            r.push((h[k].0.clone(), h[k].1.clone()));
            assert(pairs(r@) =~= before.push(all[k as int]));
        }
        k = k + 1;
    }
    r
}

/// Where a response redirects to: the first `location` of a redirecting status.
pub open spec fn redirect_target(status: u16, h: Seq<(Seq<char>, Option<Seq<char>>)>) -> Option<Seq<char>> {
    if status == 301 || status == 302 || status == 303 || status == 307 || status == 308 {
        header_from(h, "location"@, 0)
    } else {
        None
    }
}

pub fn redirect_location(status: u16, headers: &Vec<(String, Option<String>)>) -> (r: Option<String>)
    ensures
        opt_text(r) == redirect_target(status, raw_headers(headers@)),
{
    if status == 301 || status == 302 || status == 303 || status == 307 || status == 308 {
        header_text(headers, "location")
    } else {
        None
    }
}

/// Whether a redirect turns the request into one for the page, without a body.
pub open spec fn becomes_get(status: u16, method: Method) -> bool {
    ((status == 301 || status == 302) && method == Method::Post) || (status == 303 && method != Method::Head)
}

/// Where a request stands.
pub struct ExchangeV {
    pub at: UrlV,
    pub method: Method,
    pub headers: Seq<(Seq<char>, Seq<char>)>,
    pub body: Option<Seq<char>>,
    pub redirects: int,
}

/// A request on its way: where it goes, with what, and how often it was redirected.
pub struct Exchange {
    at: UrlParts,
    method: Method,
    headers: Vec<(String, String)>,
    body: Option<String>,
    redirects: usize,
}

/// The address of a reference seen from another address.
pub open spec fn next_address(from: Seq<char>, reference: Seq<char>) -> Result<UrlV, ClientFaultV> {
    match url_joined(from, reference) {
        None => Err(ClientFaultV::InvalidUrl(from)),
        Some(Err(e)) => Err(ClientFaultV::InvalidUrl(e)),
        Some(Ok(t)) => match url_read(t) {
            Err(e) => Err(ClientFaultV::InvalidUrl(e)),
            Ok(u) => if is_web_scheme(u.scheme) {
                Ok(u)
            } else {
                Err(scheme_fault(u.scheme))
            },
        },
    }
}

pub open spec fn url_result(r: Result<UrlParts, HttpClientError>) -> Result<UrlV, ClientFaultV> {
    match r {
        Ok(u) => Ok(u.model()),
        Err(e) => Err(e.model()),
    }
}

pub fn follow(from: &str, reference: &str) -> (r: Result<UrlParts, HttpClientError>)
    ensures
        url_result(r) == next_address(from@, reference@),
{
    match join_url(from, reference) {
        None => Err(HttpClientError::InvalidUrl(copy(from))),
        Some(Err(e)) => Err(HttpClientError::InvalidUrl(e)),
        Some(Ok(t)) => match parse_url(t.as_str()) {
            Err(e) => Err(HttpClientError::InvalidUrl(e)),
            Ok(u) => match ensure_http_url(&u) {
                None => Ok(u),
                Some(e) => Err(e),
            },
        },
    }
}

/// What becomes of a request that a response redirects: `None` where it is the
/// last response, else the request to send next, or why there is none.
pub open spec fn redirected(e: ExchangeV, status: u16, h: Seq<(Seq<char>, Option<Seq<char>>)>) -> Option<
    Result<ExchangeV, ClientFaultV>,
> {
    match redirect_target(status, h) {
        None => None,
        Some(reference) => if e.redirects >= MAX_REDIRECTS {
            Some(Err(ClientFaultV::Network("too many redirects (maximum 5)"@)))
        } else {
            match next_address(e.at.href, reference) {
                Err(f) => Some(Err(f)),
                Ok(u) => {
                    let plain = becomes_get(status, e.method);
                    Some(
                        Ok(
                            ExchangeV {
                                at: u,
                                method: if plain {
                                    Method::Get
                                } else {
                                    e.method
                                },
                                headers: stripped(e.headers, !is_same_origin(e.at, u), plain, e.headers.len() as int),
                                body: if plain {
                                    None
                                } else {
                                    e.body
                                },
                                redirects: e.redirects + 1,
                            },
                        ),
                    )
                },
            }
        },
    }
}

/// The request that a URL, headers and a body start.
pub open spec fn started(
    method: Method,
    url: Seq<char>,
    headers: Seq<(Seq<char>, Seq<char>)>,
    body: Option<Seq<char>>,
) -> Result<ExchangeV, ClientFaultV> {
    match url_read(url) {
        Err(e) => Err(ClientFaultV::InvalidUrl(e)),
        Ok(u) => if !is_web_scheme(u.scheme) {
            Err(scheme_fault(u.scheme))
        } else {
            match headers_fault(headers, 0) {
                Some(e) => Err(ClientFaultV::Network(e)),
                None => Ok(ExchangeV { at: u, method, headers: lower_names(headers), body, redirects: 0 }),
            }
        },
    }
}

/// The headers that are sent: those of the request, and the cookies of the jar
/// where it sets none itself.
pub open spec fn sent_headers(h: Seq<(Seq<char>, Seq<char>)>, cookies: Option<Seq<char>>) -> Seq<
    (Seq<char>, Seq<char>),
> {
    match cookies {
        Some(c) => if !has_header(h, "cookie"@) && is_header_value(c) {
            h.push(("cookie"@, c))
        } else {
            h
        },
        None => h,
    }
}

impl Exchange {
    pub closed spec fn model(&self) -> ExchangeV {
        ExchangeV {
            at: self.at.model(),
            method: self.method,
            headers: pairs(self.headers@),
            body: opt_text(self.body),
            redirects: self.redirects as int,
        }
    }

    pub open spec fn wf(&self) -> bool {
        0 <= self.model().redirects <= MAX_REDIRECTS
    }

    /// Starts a request, if its address and headers can be sent.
    pub fn start(method: Method, url: &str, headers: &Vec<(String, String)>, body: Option<String>) -> (r: Result<
        Exchange,
        HttpClientError,
    >)
        ensures
            match r {
                Ok(e) => started(method, url@, pairs(headers@), opt_text(body)) == Ok::<ExchangeV, ClientFaultV>(e.model())
                    && e.wf(),
                Err(f) => started(method, url@, pairs(headers@), opt_text(body)) == Err::<ExchangeV, ClientFaultV>(
                    f.model(),
                ),
            },
    {
        let at = match parse_url(url) {
            Ok(u) => u,
            Err(e) => {
                return Err(HttpClientError::InvalidUrl(e));
            },
        };
        if let Some(e) = ensure_http_url(&at) {
            return Err(e);
        }
        match header_map(headers) {
            Ok(headers) => Ok(Exchange { at, method, headers, body, redirects: 0 }),
            Err(e) => Err(e),
        }
    }

    /// The address that the request goes to.
    pub fn url(&self) -> (r: &str)
        ensures
            r@ == self.model().at.href,
    {
        self.at.href.as_str()
    }

    pub fn method(&self) -> (r: Method)
        ensures
            r == self.model().method,
    {
        self.method
    }

    pub fn body(&self) -> (r: Option<&str>)
        ensures
            opt_str(r) == self.model().body,
    {
        match &self.body {
            Some(b) => Some(b.as_str()),
            None => None,
        }
    }

    /// The headers to send, with the cookies that the jar has for the address.
    pub fn request_headers(&self, cookies: Option<&str>) -> (r: Vec<(String, String)>)
        ensures
            pairs(r@) == sent_headers(self.model().headers, opt_str(cookies)),
    {
        let mut r: Vec<(String, String)> = Vec::new();
        let mut k: usize = 0;
        while k < self.headers.len()
            invariant
                k <= self.headers.len(),
                pairs(r@) =~= pairs(self.headers@).take(k as int),
            decreases self.headers.len() - k,
        {
            let ghost before = pairs(r@);
            let ghost x = (self.headers@[k as int].0@, self.headers@[k as int].1@);
            r.push((self.headers[k].0.clone(), self.headers[k].1.clone()));
            assert(pairs(r@) =~= before.push(x));
            k = k + 1;
        }
        assert(pairs(r@) =~= pairs(self.headers@));
        if let Some(c) = cookies {
            if !contains_header(&self.headers, "cookie") && header_value_fault(c).is_none() {
                let ghost before = pairs(r@);
                r.push(("cookie".to_owned(), copy(c)));
                assert(pairs(r@) =~= before.push(("cookie"@, c@)));
            }
        }
        r
    }

    /// Takes the status and the headers of a response: `Ok(true)` where the
    /// request is sent again to where they point, `Ok(false)` where this is the
    /// last response.
    pub fn receive(&mut self, status: u16, headers: &Vec<(String, Option<String>)>) -> (r: Result<bool, HttpClientError>)
        requires
            old(self).wf(),
        ensures
            final(self).wf(),
            match r {
                Ok(true) => redirected(old(self).model(), status, raw_headers(headers@)) == Some(
                    Ok::<ExchangeV, ClientFaultV>(final(self).model()),
                ),
                Ok(false) => redirected(old(self).model(), status, raw_headers(headers@)) is None && *final(self) == *old(
                    self,
                ),
                Err(e) => redirected(old(self).model(), status, raw_headers(headers@)) == Some(
                    Err::<ExchangeV, ClientFaultV>(e.model()),
                ) && *final(self) == *old(self),
            },
    {
        let reference = match redirect_location(status, headers) {
            Some(t) => t,
            None => {
                return Ok(false);
            },
        };
        if self.redirects >= MAX_REDIRECTS {
            return Err(HttpClientError::Network("too many redirects (maximum 5)".to_owned()));
        }
        let next = match follow(self.at.href.as_str(), reference.as_str()) {
            Ok(u) => u,
            Err(e) => {
                return Err(e);
            },
        };
        let plain = ((status == 301 || status == 302) && self.method == Method::Post) || (status == 303 && self.method
            != Method::Head);
        let away = !same_origin(&self.at, &next);
        self.headers = strip_headers(&self.headers, away, plain);
        if plain {
            self.method = Method::Get;
            self.body = None;
        }
        self.at = next;
        self.redirects = self.redirects + 1;
        Ok(true)
    }
}

proof fn lemma_stripped(h: Seq<(Seq<char>, Seq<char>)>, sensitive: bool, of_body: bool, n: int, i: int)
    requires
        0 <= n <= h.len(),
        0 <= i < stripped(h, sensitive, of_body, n).len(),
    ensures
        !(sensitive && is_sensitive(stripped(h, sensitive, of_body, n)[i].0)),
        !(of_body && is_of_body(stripped(h, sensitive, of_body, n)[i].0)),
    decreases n,
{
    if n > 0 && i < stripped(h, sensitive, of_body, n - 1).len() {
        lemma_stripped(h, sensitive, of_body, n - 1, i);
    }
}

/// A redirect to another origin is never sent credentials or cookies of the request.
pub proof fn law_credentials_stay(e: ExchangeV, status: u16, h: Seq<(Seq<char>, Option<Seq<char>>)>, i: int)
    requires
        redirected(e, status, h) is Some,
        redirected(e, status, h)->0 is Ok,
        !is_same_origin(e.at, redirected(e, status, h)->0->Ok_0.at),
        0 <= i < redirected(e, status, h)->0->Ok_0.headers.len(),
    ensures
        !is_sensitive(redirected(e, status, h)->0->Ok_0.headers[i].0),
{
    lemma_stripped(e.headers, true, becomes_get(status, e.method), e.headers.len() as int, i);
}

/// A redirect that drops the body drops the headers that tell of it.
pub proof fn law_no_body_no_body_headers(e: ExchangeV, status: u16, h: Seq<(Seq<char>, Option<Seq<char>>)>, i: int)
    requires
        redirected(e, status, h) is Some,
        redirected(e, status, h)->0 is Ok,
        becomes_get(status, e.method),
        0 <= i < redirected(e, status, h)->0->Ok_0.headers.len(),
    ensures
        redirected(e, status, h)->0->Ok_0.body is None,
        redirected(e, status, h)->0->Ok_0.method == Method::Get,
        !is_of_body(redirected(e, status, h)->0->Ok_0.headers[i].0),
{
    let u = redirected(e, status, h)->0->Ok_0.at;
    lemma_stripped(e.headers, !is_same_origin(e.at, u), true, e.headers.len() as int, i);
}

proof fn lemma_nothing_stripped(h: Seq<(Seq<char>, Seq<char>)>, n: int)
    requires
        0 <= n <= h.len(),
    ensures
        stripped(h, false, false, n) =~= h.take(n),
    decreases n,
{
    if n > 0 {
        lemma_nothing_stripped(h, n - 1);
    }
}

/// A redirect within the origin that keeps the method keeps the headers and the body.
pub proof fn law_same_origin_keeps_request(e: ExchangeV, status: u16, h: Seq<(Seq<char>, Option<Seq<char>>)>)
    requires
        redirected(e, status, h) is Some,
        redirected(e, status, h)->0 is Ok,
        is_same_origin(e.at, redirected(e, status, h)->0->Ok_0.at),
        !becomes_get(status, e.method),
    ensures
        redirected(e, status, h)->0->Ok_0.headers == e.headers,
        redirected(e, status, h)->0->Ok_0.body == e.body,
        redirected(e, status, h)->0->Ok_0.method == e.method,
{
    lemma_nothing_stripped(e.headers, e.headers.len() as int);
    assert(e.headers.take(e.headers.len() as int) =~= e.headers);
}

/// The request after a list of responses, each of which redirects it.
pub open spec fn after_responses(e: ExchangeV, responses: Seq<(u16, Seq<(Seq<char>, Option<Seq<char>>)>)>) -> Option<
    ExchangeV,
>
    decreases responses.len(),
{
    if responses.len() == 0 {
        Some(e)
    } else {
        match after_responses(e, responses.drop_last()) {
            Some(f) => match redirected(f, responses.last().0, responses.last().1) {
                Some(Ok(g)) => Some(g),
                _ => None,
            },
            None => None,
        }
    }
}

/// However often responses redirect it, a request is sent six times at most.
pub proof fn law_redirects_end(
    method: Method,
    url: Seq<char>,
    headers: Seq<(Seq<char>, Seq<char>)>,
    body: Option<Seq<char>>,
    responses: Seq<(u16, Seq<(Seq<char>, Option<Seq<char>>)>)>,
)
    requires
        started(method, url, headers, body) is Ok,
        responses.len() > MAX_REDIRECTS,
    ensures
        after_responses(started(method, url, headers, body)->Ok_0, responses) is None,
{
    lemma_redirects_counted(started(method, url, headers, body)->Ok_0, responses);
}

proof fn lemma_redirects_counted(e: ExchangeV, responses: Seq<(u16, Seq<(Seq<char>, Option<Seq<char>>)>)>)
    requires
        0 <= e.redirects <= MAX_REDIRECTS,
    ensures
        after_responses(e, responses) is Some ==> after_responses(e, responses)->0.redirects == e.redirects
            + responses.len() && after_responses(e, responses)->0.redirects <= MAX_REDIRECTS,
    decreases responses.len(),
{
    if responses.len() > 0 {
        lemma_redirects_counted(e, responses.drop_last());
    }
}

/// Whether the bytes of a response are to be inflated.
pub fn is_deflated(headers: &Vec<(String, Option<String>)>) -> (r: bool)
    ensures
        r == match header_from(raw_headers(headers@), "content-encoding"@, 0) {
            Some(v) => same_name(v, "deflate"@),
            None => false,
        },
{
    match header_text(headers, "content-encoding") {
        Some(v) => eq_ignore_ascii_case(v.as_str(), "deflate"),
        None => false,
    }
}

/// Refuses a body that is over its limit.
pub fn within_limit(bytes: Vec<u8>, limit: Option<usize>, url: &str) -> (r: Result<Vec<u8>, HttpClientError>)
    ensures
        match r {
            Ok(b) => b@ == bytes@ && (limit is Some ==> bytes.len() <= limit->0),
            Err(e) => limit is Some && bytes.len() > limit->0 && e.model() == (ClientFaultV::ResponseTooLarge {
                url: url@,
                limit: limit->0,
            }),
        },
{
    if let Some(n) = limit {
        if bytes.len() > n {
            return Err(HttpClientError::ResponseTooLarge { url: copy(url), limit: n });
        }
    }
    Ok(bytes)
}

/// The time that a request may take, and that connecting may take, in milliseconds.
pub fn timeouts(timeout_ms: u64) -> (r: (u64, u64))
    ensures
        r.0 == if timeout_ms == 0 {
            1
        } else {
            timeout_ms as int
        },
        r.1 == if r.0 < 5000 {
            r.0 as int
        } else {
            5000
        },
{
    let all: u64 = if timeout_ms == 0 {
        1
    } else {
        timeout_ms
    };
    let connect: u64 = if all < 5000 {
        all
    } else {
        5000
    };
    (all, connect)
}

} // verus!
