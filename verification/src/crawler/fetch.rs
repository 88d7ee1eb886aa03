//! Sending a request: its redirects, its cookies, and its further attempts.

use crate::crawler::http::{
    redirected, started, within_limit, ClientFaultV, Exchange, ExchangeV, HttpClientError, MAX_REDIRECTS,
};
use crate::crawler::response::{
    http_result, judged, raw_headers, FaultV, FetchError, FetchRun, HttpResponse, HttpV, Outcome, OutcomeV,
    RawResponse, RawV,
};
use crate::crawler::session_cache::{plan_client, ClientPlan};
use crate::crawler::sessions::sessions_keeping;
use crate::crawler::url_rule::{has_header, same_name, Method, RequestSpec, RequestV};
use crate::ext::headers::{proxy_fault, proxy_fault_of};
use crate::ext::xml::pairs;
use crate::model::book_source::BookSource;
use crate::parser::script::{
    after, agrees, extends, group_log, lemma_extends_on, lemma_extends_self, next_answer, reply_model, AskV, Host,
    Oracle, Transport, Wire, WireV, World,
};
use crate::util::chars::{copy, eq_ignore_ascii_case, is_empty_text, opt_str, opt_text, texts, trim, trim_of};
use vstd::prelude::*;
use vstd::string::*;

verus! {

/// What a request is sent by: whether it has the cookies of the session, its
/// time, and the proxy that it goes through.
#[derive(Debug)]
pub struct HttpClient {
    pub cookies: bool,
    pub timeout_ms: u64,
    pub proxy: Option<String>,
}

pub struct ClientV {
    pub cookies: bool,
    pub timeout_ms: u64,
    pub proxy: Option<Seq<char>>,
}

impl HttpClient {
    pub open spec fn model(self) -> ClientV {
        ClientV { cookies: self.cookies, timeout_ms: self.timeout_ms, proxy: opt_text(self.proxy) }
    }
}

/// The cookies that the first `n` headers of a response set.
pub open spec fn set_cookies_of(h: Seq<(Seq<char>, Option<Seq<char>>)>, n: int) -> Seq<Seq<char>>
    decreases n,
{
    if n <= 0 {
        seq![]
    } else {
        let before = set_cookies_of(h, n - 1);
        match h[n - 1].1 {
            Some(v) => if same_name(h[n - 1].0, "set-cookie"@) {
                before.push(v)
            } else {
                before
            },
            None => before,
        }
    }
}

pub fn collect_set_cookies(h: &Vec<(String, Option<String>)>) -> (r: Vec<String>)
    ensures
        texts(r@) == set_cookies_of(raw_headers(h@), h.len() as int),
{
    let ghost all = raw_headers(h@);
    let mut r: Vec<String> = Vec::new();
    let mut k: usize = 0;
    assert(texts(r@) =~= seq![]);
    while k < h.len()
        invariant
            k <= h.len(),
            all == raw_headers(h@),
            texts(r@) == set_cookies_of(all, k as int),
        decreases h.len() - k,
    {
        assert(all[k as int] == (h@[k as int].0@, opt_text(h@[k as int].1)));
        if let Some(v) = &h[k].1 {
            if eq_ignore_ascii_case(h[k].0.as_str(), "set-cookie") {
                let ghost before = texts(r@);
                r.push(v.clone());
                assert(texts(r@) =~= before.push(v@));
            }
        }
        k = k + 1;
    }
    r
}

/// Whether the jar is asked for the cookies of a request.
pub open spec fn asks_cookies(c: ClientV, e: ExchangeV) -> bool {
    c.cookies && !has_header(e.headers, "cookie"@)
}

/// The message that a request sends, with the cookies that the jar gave.
pub open spec fn wire_of(c: ClientV, e: ExchangeV, cookies: Option<Seq<char>>, limit: Option<usize>) -> WireV {
    WireV {
        proxy: c.proxy,
        timeout_ms: c.timeout_ms,
        method: e.method,
        url: e.at.href,
        headers: crate::crawler::http::sent_headers(e.headers, cookies),
        body: e.body,
        limit,
    }
}

/// The last response of a request: its address, and its bytes within the limit.
pub open spec fn last_response(r: RawV, url: Seq<char>, limit: Option<usize>) -> Result<RawV, ClientFaultV> {
    if limit is Some && r.body.len() > limit->0 {
        Err(ClientFaultV::ResponseTooLarge { url, limit: limit->0 })
    } else {
        Ok(RawV { url, ..r })
    }
}

/// What comes of a request that stands at `e`.
pub open spec fn exchanged(c: ClientV, e: ExchangeV, limit: Option<usize>, w: World, o: Oracle) -> (
    Result<RawV, ClientFaultV>,
    World,
)
    decreases MAX_REDIRECTS + 1 - e.redirects,
{
    let asks = asks_cookies(c, e);
    let cookies = if asks {
        next_answer(w, o).cookies
    } else {
        None
    };
    let w1 = if asks {
        after(w, AskV::Jar(e.at.href))
    } else {
        w
    };
    let w2 = after(w1, AskV::Send(wire_of(c, e, cookies, limit)));
    match next_answer(w1, o).reply {
        Err(f) => (Err(f), w2),
        Ok(r) => {
            let w3 = if c.cookies {
                World {
                    state: sessions_keeping(
                        w2.state,
                        e.at.href,
                        set_cookies_of(r.headers, r.headers.len() as int),
                    ),
                    ..w2
                }
            } else {
                w2
            };
            match redirected(e, r.status, r.headers) {
                None => (last_response(r, e.at.href, limit), w3),
                Some(Err(f)) => (Err(f), w3),
                Some(Ok(next)) => if 0 <= e.redirects {
                    exchanged(c, next, limit, w3, o)
                } else {
                    (Err(ClientFaultV::Network(seq![])), w3)
                },
            }
        },
    }
}

/// What comes of a request.
pub open spec fn executed(
    c: ClientV,
    method: Method,
    url: Seq<char>,
    headers: Seq<(Seq<char>, Seq<char>)>,
    body: Option<Seq<char>>,
    limit: Option<usize>,
    w: World,
    o: Oracle,
) -> (Result<RawV, ClientFaultV>, World) {
    match started(method, url, headers, body) {
        Err(f) => (Err(f), w),
        Ok(e) => exchanged(c, e, limit, w, o),
    }
}

fn copy_opt(o: Option<&str>) -> (r: Option<String>)
    ensures
        opt_text(r) == opt_str(o),
{
    match o {
        Some(s) => Some(copy(s)),
        None => None,
    }
}

fn opt_ref(o: &Option<String>) -> (r: Option<&str>)
    ensures
        opt_str(r) == opt_text(*o),
{
    match o {
        Some(s) => Some(s.as_str()),
        None => None,
    }
}

impl HttpClient {
    /// Sends the message of a request as it stands.
    pub fn run_once<E: Transport>(&self, e: &Exchange, limit: Option<usize>, host: &mut Host<E>) -> (r: Result<
        RawResponse,
        HttpClientError,
    >)
        ensures
            extends(old(host).log(), final(host).log()),
            forall|o: Oracle| #[trigger]
                agrees(final(host).log(), o) ==> ({
                    let w = old(host).world();
                    let asks = asks_cookies(self.model(), e.model());
                    let cookies = if asks {
                        next_answer(w, o).cookies
                    } else {
                        None
                    };
                    let w1 = if asks {
                        after(w, AskV::Jar(e.model().at.href))
                    } else {
                        w
                    };
                    &&& next_answer(w1, o).reply == reply_model(r)
                    &&& final(host).world() == after(w1, AskV::Send(wire_of(self.model(), e.model(), cookies, limit)))
                }),
    {
        broadcast use group_log;

        let own = e.request_headers(None);
        let mut cookies: Option<String> = None;
        if self.cookies && !crate::crawler::url_rule::contains_header(&own, "cookie") {
            cookies = host.cookies(e.url());
        }
        let ghost log1 = host.log();
        let wire = Wire {
            proxy: copy_opt(opt_ref(&self.proxy)),
            timeout_ms: self.timeout_ms,
            method: e.method(),
            url: copy(e.url()),
            headers: e.request_headers(opt_ref(&cookies)),
            body: copy_opt(e.body()),
            limit,
        };
        let r = host.send(&wire);
        proof {
            lemma_extends_on(old(host).log(), log1, host.log());
            assert forall|o: Oracle| #[trigger] agrees(host.log(), o) implies agrees(log1, o) by {}
        }
        r
    }

    /// Carries out a request: follows its redirects, sends and keeps cookies,
    /// and takes no more bytes than the limit.
    pub fn execute<E: Transport>(
        &self,
        method: Method,
        url: &str,
        headers: &Vec<(String, String)>,
        body: Option<&str>,
        max_response_bytes: Option<usize>,
        host: &mut Host<E>,
    ) -> (r: Result<RawResponse, HttpClientError>)
        ensures
            extends(old(host).log(), final(host).log()),
            forall|o: Oracle| #[trigger]
                agrees(final(host).log(), o) ==> executed(
                    self.model(),
                    method,
                    url@,
                    pairs(headers@),
                    opt_str(body),
                    max_response_bytes,
                    old(host).world(),
                    o,
                ) == (reply_model(r), final(host).world()),
    {
        broadcast use group_log;

        let ghost c = self.model();
        let ghost limit = max_response_bytes;
        let ghost w0 = host.world();
        let mut e = match Exchange::start(method, url, headers, copy_opt(body)) {
            Ok(e) => e,
            Err(f) => {
                return Err(f);
            },
        };
        let ghost first = e.model();
        let ghost goal = |o: Oracle| exchanged(c, first, limit, w0, o);
        loop
            invariant
                e.wf(),
                c == self.model(),
                limit == max_response_bytes,
                started(method, url@, pairs(headers@), opt_str(body)) == Ok::<ExchangeV, ClientFaultV>(first),
                w0 == old(host).world(),
                extends(old(host).log(), host.log()),
                forall|o: Oracle| #[trigger]
                    agrees(host.log(), o) ==> exchanged(c, first, limit, w0, o) == exchanged(
                        c,
                        e.model(),
                        limit,
                        host.world(),
                        o,
                    ),
            decreases MAX_REDIRECTS + 1 - e.model().redirects,
        {
            let ghost log0 = host.log();
            let ghost at = e.model();
            let ghost w = host.world();
            let reply = self.run_once(&e, max_response_bytes, host);
            let ghost log1 = host.log();
            proof {
                lemma_extends_on(old(host).log(), log0, log1);
                assert forall|o: Oracle| #[trigger] agrees(log1, o) implies agrees(log0, o) by {}
            }
            let response = match reply {
                Ok(x) => x,
                Err(f) => {
                    return Err(f);
                },
            };
            assert(raw_headers(response.headers@).len() == response.headers.len());
            if self.cookies {
                let kept = collect_set_cookies(&response.headers);
                host.keep_cookies(e.url(), &kept);
            }
            let ghost log2 = host.log();
            proof {
                lemma_extends_self(log1);
                lemma_extends_on(log0, log1, log2);
                lemma_extends_on(old(host).log(), log0, log2);
                assert forall|o: Oracle| #[trigger] agrees(log2, o) implies agrees(log1, o) && agrees(log0, o) by {}
            }
            match e.receive(response.status, &response.headers) {
                Err(f) => {
                    return Err(f);
                },
                Ok(false) => {
                    let status = response.status;
                    return match within_limit(response.body, max_response_bytes, e.url()) {
                        Ok(body) => Ok(RawResponse { url: copy(e.url()), status, headers: response.headers, body }),
                        Err(f) => Err(f),
                    };
                },
                Ok(true) => {},
            }
        }
    }
}

pub open spec fn outcome_of(r: Result<RawV, ClientFaultV>) -> OutcomeV {
    match r {
        Ok(x) => OutcomeV::Answer(x),
        Err(ClientFaultV::InvalidUrl(m)) => OutcomeV::InvalidUrl(m),
        Err(ClientFaultV::Timeout(m)) => OutcomeV::Timeout(m),
        Err(ClientFaultV::Network(m)) => OutcomeV::Network(m),
        Err(ClientFaultV::ResponseTooLarge { url, limit }) => OutcomeV::TooLarge { url, limit },
    }
}

pub fn outcome(r: Result<RawResponse, HttpClientError>) -> (x: Outcome)
    ensures
        x.model() == outcome_of(reply_model(r)),
{
    match r {
        Ok(x) => Outcome::Answer(x),
        Err(HttpClientError::InvalidUrl(m)) => Outcome::InvalidUrl(m),
        Err(HttpClientError::Timeout(m)) => Outcome::Timeout(m),
        Err(HttpClientError::Network(m)) => Outcome::Network(m),
        Err(HttpClientError::ResponseTooLarge { url, limit }) => Outcome::TooLarge { url, limit },
    }
}

/// What comes of a request from an attempt on.
pub open spec fn fetched_from(c: ClientV, r: RequestV, max: usize, attempt: int, limit: int, w: World, o: Oracle) -> (
    Result<HttpV, FaultV>,
    World,
)
    decreases limit - attempt,
{
    let x = executed(c, r.method, r.url, r.headers, r.body, Some(max), w, o);
    match judged(outcome_of(x.0), r.url, r.charset, r.response_type, attempt >= limit) {
        Some(j) => (j, x.1),
        None => if attempt < limit {
            fetched_from(c, r, max, attempt + 1, limit, x.1, o)
        } else {
            (Err(FaultV::Network(seq![])), x.1)
        },
    }
}

/// The client of a request: one of its own where it names a proxy, so that the
/// cookies of the session never go there.
pub open spec fn client_for(c: ClientV, r: RequestV) -> ClientV {
    match r.proxy {
        Some(p) => if trim_of(p).len() > 0 {
            ClientV { cookies: false, timeout_ms: 15000, proxy: Some(p) }
        } else {
            c
        },
        None => c,
    }
}

/// What is wrong with the proxy that a request names.
pub open spec fn proxy_trouble(r: RequestV) -> Option<Seq<char>> {
    match r.proxy {
        Some(p) => if trim_of(p).len() > 0 {
            proxy_fault_of(p)
        } else {
            None
        },
        None => None,
    }
}

/// How often a request is tried again.
pub open spec fn retries(r: RequestV) -> int {
    if r.retry < 3 {
        r.retry
    } else {
        3
    }
}

/// What comes of a request that a session fetches. A proxy that is none is told
/// before anything else is.
pub open spec fn fetched(c: ClientV, r: RequestV, max: usize, w: World, o: Oracle) -> (Result<HttpV, FaultV>, World) {
    let bytes = if max == 0 {
        1usize
    } else {
        max
    };
    match proxy_trouble(r) {
        Some(e) => (Err(FaultV::InvalidUrl(e)), w),
        None => fetched_from(client_for(c, r), r, bytes, 0, retries(r), w, o),
    }
}

/// A session that requests are fetched in.
#[derive(Debug)]
pub struct HttpSession {
    pub client: HttpClient,
}

impl HttpSession {
    /// A client for the requests of a session, with its cookies unless the source
    /// does without.
    pub fn new(source: &BookSource, timeout_ms: u64) -> (r: HttpSession)
        ensures
            r.client.model() == session_client(*source, timeout_ms),
    {
        let ms: u64 = if timeout_ms == 0 {
            1
        } else {
            timeout_ms
        };
        let cookies = match plan_client(source, timeout_ms, true) {
            ClientPlan::Own { cookies } => cookies,
            ClientPlan::Kept { .. } => true,
        };
        HttpSession { client: HttpClient { cookies, timeout_ms: ms, proxy: None } }
    }

    /// Fetches a request: a failed attempt is made again as often as the
    /// request asks for, three times at most.
    pub fn fetch<E: Transport>(&self, spec: &RequestSpec, max_response_bytes: usize, host: &mut Host<E>) -> (r: Result<
        HttpResponse,
        FetchError,
    >)
        ensures
            extends(old(host).log(), final(host).log()),
            forall|o: Oracle| #[trigger]
                agrees(final(host).log(), o) ==> fetched(
                    self.client.model(),
                    spec.model(),
                    max_response_bytes,
                    old(host).world(),
                    o,
                ) == (http_result(r), final(host).world()),
    {
        broadcast use group_log;

        let bytes: usize = if max_response_bytes == 0 {
            1
        } else {
            max_response_bytes
        };
        let mut client = HttpClient {
            cookies: self.client.cookies,
            timeout_ms: self.client.timeout_ms,
            proxy: copy_opt(opt_ref(&self.client.proxy)),
        };
        if let Some(p) = &spec.proxy {
            if !is_empty_text(trim(p.as_str()).as_str()) {
                if let Some(e) = proxy_fault(p.as_str()) {
                    return Err(FetchError::InvalidUrl(e));
                }
                client = HttpClient { cookies: false, timeout_ms: 15000, proxy: Some(p.clone()) };
            }
        }
        let ghost c = client.model();
        let ghost q = spec.model();
        let ghost w0 = host.world();
        let mut run = FetchRun::new(spec);
        let ghost limit = run.limit();
        loop
            invariant
                run.wf(),
                limit == run.limit(),
                c == client.model(),
                q == spec.model(),
                w0 == old(host).world(),
                extends(old(host).log(), host.log()),
                forall|o: Oracle| #[trigger]
                    agrees(host.log(), o) ==> fetched_from(c, q, bytes, 0, limit, w0, o) == fetched_from(
                        c,
                        q,
                        bytes,
                        run.attempt(),
                        limit,
                        host.world(),
                        o,
                    ),
                forall|o: Oracle|
                    fetched(self.client.model(), q, max_response_bytes, w0, o) == #[trigger] fetched_from(
                        c,
                        q,
                        bytes,
                        0,
                        limit,
                        w0,
                        o,
                    ),
            decreases limit - run.attempt(),
        {
            let ghost log0 = host.log();
            let ghost attempt = run.attempt();
            let reply = client.execute(
                spec.method,
                spec.url.as_str(),
                &spec.headers,
                opt_ref(&spec.body),
                Some(bytes),
                host,
            );
            proof {
                lemma_extends_on(old(host).log(), log0, host.log());
                assert forall|o: Oracle| #[trigger] agrees(host.log(), o) implies agrees(log0, o) by {}
            }
            let out = outcome(reply);
            if let Some(r) = run.feed(spec, out) {
                return r;
            }
        }
    }
}

/// The client of a session of a source.
pub open spec fn session_client(source: BookSource, timeout_ms: u64) -> ClientV {
    ClientV {
        cookies: source.enabled_cookie_jar != Some(false),
        timeout_ms: if timeout_ms == 0 {
            1
        } else {
            timeout_ms
        },
        proxy: None,
    }
}

/// Whether the second record has the questions of the first and after them only
/// messages that go through one proxy.
pub open spec fn only_sent(a: Seq<AskV>, b: Seq<AskV>, proxy: Option<Seq<char>>) -> bool {
    &&& a.len() <= b.len()
    &&& forall|i: int| 0 <= i < a.len() ==> #[trigger] b[i] == a[i]
    &&& forall|i: int| a.len() <= i < b.len() ==> (#[trigger] b[i]) is Send && b[i]->Send_0.proxy == proxy
}

proof fn lemma_exchange_sends(c: ClientV, e: ExchangeV, limit: Option<usize>, w: World, o: Oracle)
    requires
        !c.cookies,
    ensures
        only_sent(w.asked, exchanged(c, e, limit, w, o).1.asked, c.proxy),
        exchanged(c, e, limit, w, o).1.state == w.state,
    decreases MAX_REDIRECTS + 1 - e.redirects,
{
    let w2 = after(w, AskV::Send(wire_of(c, e, None, limit)));
    if let Ok(r) = next_answer(w, o).reply {
        if let Some(Ok(next)) = redirected(e, r.status, r.headers) {
            if 0 <= e.redirects {
                lemma_exchange_sends(c, next, limit, w2, o);
            }
        }
    }
}

proof fn lemma_fetch_sends(c: ClientV, r: RequestV, max: usize, attempt: int, limit: int, w: World, o: Oracle)
    requires
        !c.cookies,
    ensures
        only_sent(w.asked, fetched_from(c, r, max, attempt, limit, w, o).1.asked, c.proxy),
        fetched_from(c, r, max, attempt, limit, w, o).1.state == w.state,
    decreases limit - attempt,
{
    let x = executed(c, r.method, r.url, r.headers, r.body, Some(max), w, o);
    if let Ok(e) = started(r.method, r.url, r.headers, r.body) {
        lemma_exchange_sends(c, e, Some(max), w, o);
    }
    if judged(outcome_of(x.0), r.url, r.charset, r.response_type, attempt >= limit) is None && attempt < limit {
        lemma_fetch_sends(c, r, max, attempt + 1, limit, x.1, o);
    }
}

/// A request that names a proxy goes through it with every message, and neither
/// reads nor sets the cookies of the session, nor anything else of it.
pub proof fn law_proxy_is_kept_apart(c: ClientV, r: RequestV, max: usize, w: World, o: Oracle)
    requires
        r.proxy is Some,
        trim_of(r.proxy->0).len() > 0,
    ensures
        only_sent(w.asked, fetched(c, r, max, w, o).1.asked, r.proxy),
        fetched(c, r, max, w, o).1.state == w.state,
{
    let bytes = if max == 0 {
        1usize
    } else {
        max
    };
    if proxy_trouble(r) is None {
        lemma_fetch_sends(client_for(c, r), r, bytes, 0, retries(r), w, o);
    }
}

} // verus!
