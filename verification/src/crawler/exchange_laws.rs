//! What holds of the messages of a request, and of what their replies are
//! taken for.

use crate::crawler::fetch::{
    asks_cookies, client_for, exchanged, executed, fetched, fetched_from, outcome_of, proxy_trouble, set_cookies_of,
    wire_of, ClientV,
};
use crate::crawler::http::{lower_names, redirected, started, ClientFaultV, ExchangeV, MAX_REDIRECTS};
use crate::crawler::response::{
    body_text, challenge_of, charset_in, charset_part, decoded_body, header_charset, header_from, joined_headers,
    judged, judged_response, marked_encoding, snippet_of, with_value, FaultV, HttpV, OutcomeV, RawV,
};
use crate::crawler::sessions::sessions_keeping;
use crate::crawler::url_rule::{has_header, Method, RequestV};
use crate::ext::codec::{decoded_as, encoding_of};
use crate::ext::headers::is_header_value;
use crate::ext::urls::{url_joined, url_read, UrlV};
use crate::parser::script::{after, next_answer, AskV, Oracle, WireV, World};
use crate::util::bytes::hex_text;
use crate::util::chars::{
    find_of, has_prefix, has_suffix, is_quote, is_space, join_of, lemma_find_from, lemma_mark_at, lemma_solid_ends,
    lemma_split_join, lower_ascii_of, split_of, split_once_of, trim_of, without_quotes,
};
use vstd::prelude::*;
use vstd::string::*;

verus! {

/// The text of a response is what its bytes say in the encoding that the
/// request names, whatever the response says of itself.
pub proof fn law_named_charset_decides(b: Seq<u8>, charset: Seq<char>, content_type: Option<Seq<char>>)
    requires
        encoding_of(charset) is Some,
    ensures
        decoded_body(b, Some(charset), content_type) == decoded_as(charset, b).0,
{
}

/// A byte order mark tells the encoding of the bytes after it, and is no part
/// of the text.
pub proof fn law_mark_is_taken_off(rest: Seq<u8>, content_type: Option<Seq<char>>)
    ensures
        decoded_body(seq![0xEFu8, 0xBBu8, 0xBFu8] + rest, None, content_type) == decoded_as("UTF-8"@, rest).0,
        decoded_body(seq![0xFFu8, 0xFEu8] + rest, None, content_type) == decoded_as("UTF-16LE"@, rest).0,
        decoded_body(seq![0xFEu8, 0xFFu8] + rest, None, content_type) == decoded_as("UTF-16BE"@, rest).0,
{
    let a = seq![0xEFu8, 0xBBu8, 0xBFu8] + rest;
    let b = seq![0xFFu8, 0xFEu8] + rest;
    let c = seq![0xFEu8, 0xFFu8] + rest;
    assert(a.subrange(0, 3) =~= seq![0xEFu8, 0xBBu8, 0xBFu8]);
    assert(a.subrange(3, a.len() as int) =~= rest);
    assert(b.subrange(0, 2) =~= seq![0xFFu8, 0xFEu8]);
    assert(b.subrange(2, b.len() as int) =~= rest);
    assert(c.subrange(0, 2) =~= seq![0xFEu8, 0xFFu8]);
    assert(c.subrange(2, c.len() as int) =~= rest);
    if b.len() >= 3 && b.subrange(0, 3) == seq![0xEFu8, 0xBBu8, 0xBFu8] {
        assert(b.subrange(0, 3)[0] == 0xFFu8);
    }
    if c.len() >= 3 && c.subrange(0, 3) == seq![0xEFu8, 0xBBu8, 0xBFu8] {
        assert(c.subrange(0, 3)[0] == 0xFEu8);
    }
    if c.subrange(0, 2) == seq![0xFFu8, 0xFEu8] {
        assert(c.subrange(0, 2)[0] == 0xFEu8);
    }
}

proof fn lemma_name_and_value(n: Seq<char>, v: Seq<char>)
    requires
        !n.contains('='),
    ensures
        split_once_of(n + "="@ + v, "="@) == Some((n, v)),
{
    reveal_strlit("=");
    assert("="@ =~= seq!['=']);
    let s = n + "="@ + v;
    let k = n.len() as int;
    lemma_find_from(s, "="@, 0);
    lemma_mark_at(s, '=', k);
    assert(s[k] == '=');
    if let Some(p) = find_of(s, "="@) {
        lemma_mark_at(s, '=', p);
        if p < k {
            assert(s[p] == n[p]);
            assert(n.contains(n[p]));
        }
    }
    assert(s.subrange(0, k) =~= n);
    assert(s.subrange(k + 1, s.len() as int) =~= v);
}

/// A content type tells the encoding that it names.
pub proof fn law_content_type_tells_charset(mime: Seq<char>, charset: Seq<char>)
    requires
        !mime.contains(';'),
        !mime.contains('='),
        !charset.contains(';'),
        charset.len() > 0,
        !is_space(charset[0]),
        !is_space(charset.last()),
        !is_quote(charset[0]),
        !is_quote(charset.last()),
    ensures
        header_charset(Some(mime + "; charset="@ + charset)) == Some(charset),
        header_charset(Some(mime)) is None,
{
    reveal_strlit(";");
    reveal_strlit("=");
    reveal_strlit("; charset=");
    reveal_strlit(" charset");
    reveal_strlit("charset");
    assert(";"@ =~= seq![';']);
    assert("="@ =~= seq!['=']);
    let second = " charset"@ + "="@ + charset;
    let parts = seq![mime, second];
    assert(!second.contains(';')) by {
        assert(forall|i: int| 0 <= i < second.len() ==> #[trigger] second[i] != ';') by {
            assert(forall|i: int| 9 <= i < second.len() ==> #[trigger] second[i] == charset[i - 9]);
        }
    }
    assert(parts[0] == mime && parts[1] == second);
    lemma_split_join(parts, ';');
    assert(parts.drop_last() =~= seq![mime]);
    assert(seq![mime][0] == mime);
    assert(join_of(seq![mime], ";"@) == mime);
    assert(join_of(parts, ";"@) == mime + ";"@ + second);
    assert(";"@ + " charset"@ + "="@ =~= "; charset="@);
    assert(mime + ";"@ + second =~= mime + "; charset="@ + charset);
    lemma_no_part(mime);
    lemma_name_and_value(" charset"@, charset);
    lemma_solid_ends("charset"@);
    assert(" charset"@ =~= " "@ + "charset"@) by {
        reveal_strlit(" ");
    }
    lemma_solid_ends(charset);
    assert(without_quotes(charset) == charset);
    reveal_with_fuel(charset_in, 3);
    let one = seq![mime];
    assert(one[0] == mime);
    lemma_split_join(one, ';');
    assert(join_of(one, ";"@) == mime);
}

proof fn lemma_no_part(mime: Seq<char>)
    requires
        !mime.contains('='),
    ensures
        charset_part(mime) is None,
{
    reveal_strlit("=");
    assert("="@ =~= seq!['=']);
    lemma_find_from(mime, "="@, 0);
    if let Some(p) = find_of(mime, "="@) {
        lemma_mark_at(mime, '=', p);
        assert(mime.contains(mime[p]));
    }
}

/// Where the request names no encoding and the bytes have no mark, the encoding
/// of the content type decides as long as the bytes are well formed in it.
pub proof fn law_header_charset_decides(b: Seq<u8>, content_type: Seq<char>, charset: Seq<char>)
    requires
        marked_encoding(b) is None,
        header_charset(Some(content_type)) == Some(charset),
        encoding_of(charset) is Some,
        !decoded_as(charset, b).1,
    ensures
        decoded_body(b, None, Some(content_type)) == decoded_as(charset, b).0,
{
}

/// A page that is no challenge and says that all went well is given with its
/// text, where it was found.
pub proof fn law_page_is_given(r: RawV, charset: Option<Seq<char>>)
    requires
        200 <= r.status < 300,
        ({
            let text = decoded_body(r.body, charset, header_from(r.headers, "content-type"@, 0));
            challenge_of(r.status, r.headers, snippet_of(text), r.url) is None
        }),
        header_from(r.headers, "content-type"@, 0) is None,
    ensures
        ({
            let text = decoded_body(r.body, charset, None);
            judged_response(r, charset, None) matches Ok(x) && x.url == r.url && x.status == r.status && x.body == text
        }),
        forall|kind: Seq<char>|
            trim_of(kind).len() > 0 ==> (#[trigger] judged_response(r, charset, Some(kind)) matches Ok(x) && x.body
                == hex_text(r.body)),
{
    let none: Option<Seq<char>> = None;
    assert(crate::parser::field::or_blank(none) =~= seq![]);
    crate::util::chars::lemma_trim_len(Seq::<char>::empty());
}

/// A server's error, a timeout and a failed connection are tried again as long
/// as attempts are left; every other reply is the end at once.
pub proof fn law_what_is_tried_again(
    r: RawV,
    url: Seq<char>,
    charset: Option<Seq<char>>,
    kind: Option<Seq<char>>,
    message: Seq<char>,
    limit: usize,
)
    ensures
        judged(OutcomeV::Timeout(message), url, charset, kind, false) is None,
        judged(OutcomeV::Network(message), url, charset, kind, false) is None,
        judged(OutcomeV::Timeout(message), url, charset, kind, true) == Some(
            Err::<HttpV, FaultV>(FaultV::Timeout { url: Some(url), message }),
        ),
        judged(OutcomeV::Network(message), url, charset, kind, true) == Some(
            Err::<HttpV, FaultV>(FaultV::Network(message)),
        ),
        judged(OutcomeV::InvalidUrl(message), url, charset, kind, false) == Some(
            Err::<HttpV, FaultV>(FaultV::InvalidUrl(message)),
        ),
        judged(OutcomeV::TooLarge { url, limit }, url, charset, kind, false) == Some(
            Err::<HttpV, FaultV>(FaultV::ResponseTooLarge { url, limit }),
        ),
        r.status < 500 ==> judged(OutcomeV::Answer(r), url, charset, kind, false) == Some(
            judged_response(r, charset, kind),
        ),
        judged_response(r, charset, kind) is Ok ==> judged(OutcomeV::Answer(r), url, charset, kind, false) == Some(
            judged_response(r, charset, kind),
        ),
        r.status >= 500 && judged_response(r, charset, kind) is Err && judged_response(r, charset, kind)->Err_0 is HttpStatus
            ==> judged(OutcomeV::Answer(r), url, charset, kind, false) is None,
{
}

/// A reply that is no page and no challenge is told by its status.
pub proof fn law_status_is_told(r: RawV, charset: Option<Seq<char>>, kind: Option<Seq<char>>)
    requires
        r.status < 200 || r.status >= 300,
        ({
            let text = decoded_body(r.body, charset, header_from(r.headers, "content-type"@, 0));
            challenge_of(r.status, r.headers, snippet_of(text), r.url) is None
        }),
    ensures
        judged_response(r, charset, kind) == Err::<HttpV, FaultV>(
            FaultV::HttpStatus { status: r.status, url: r.url },
        ),
{
}

proof fn lemma_attempts_left(
    c: ClientV,
    r: RequestV,
    s: RequestV,
    max: usize,
    a: int,
    limit: int,
    w: World,
    o: Oracle,
)
    requires
        a <= limit,
        s == (RequestV { retry: s.retry, ..r }),
    ensures
        fetched_from(c, r, max, a + 1, limit + 1, w, o) == fetched_from(c, s, max, a, limit, w, o),
    decreases limit - a,
{
    let x = executed(c, r.method, r.url, r.headers, r.body, Some(max), w, o);
    if a < limit {
        lemma_attempts_left(c, r, s, max, a + 1, limit, x.1, o);
    }
}

/// A request that needs no other attempt is sent once, and what comes of it is
/// what comes of the request. One that may be tried again goes on as the same
/// request with one attempt less.
pub proof fn law_attempts(c: ClientV, r: RequestV, max: usize, w: World, o: Oracle)
    requires
        max > 0,
        proxy_trouble(r) is None,
        0 <= r.retry <= 3,
    ensures
        ({
            let x = executed(client_for(c, r), r.method, r.url, r.headers, r.body, Some(max), w, o);
            let j = judged(outcome_of(x.0), r.url, r.charset, r.response_type, r.retry == 0);
            &&& j matches Some(end) ==> fetched(c, r, max, w, o) == (end, x.1)
            &&& j is None ==> r.retry > 0 && fetched(c, r, max, w, o) == fetched(
                c,
                RequestV { retry: r.retry - 1, ..r },
                max,
                x.1,
                o,
            )
        }),
{
    let x = executed(client_for(c, r), r.method, r.url, r.headers, r.body, Some(max), w, o);
    let j = judged(outcome_of(x.0), r.url, r.charset, r.response_type, r.retry == 0);
    if j is None {
        let s = RequestV { retry: r.retry - 1, ..r };
        lemma_attempts_left(client_for(c, r), r, s, max, 0, r.retry - 1, x.1, o);
    }
}

proof fn lemma_asked_stays(c: ClientV, e: ExchangeV, limit: Option<usize>, w: World, o: Oracle)
    ensures
        w.asked.is_prefix_of(exchanged(c, e, limit, w, o).1.asked),
    decreases MAX_REDIRECTS + 1 - e.redirects,
{
    let asks = asks_cookies(c, e);
    let cookies = if asks {
        next_answer(w, o).cookies
    } else {
        None
    };
    let w1 = if asks {
        after(w, AskV::Jar(e.at.href))
    } else {
        w
    };
    let w2 = after(w1, AskV::Send(wire_of(c, e, cookies, limit)));
    assert(w.asked.is_prefix_of(w2.asked)) by {
        assert(w2.asked.subrange(0, w.asked.len() as int) =~= w.asked);
    }
    if let Ok(r) = next_answer(w1, o).reply {
        let w3 = if c.cookies {
            World {
                state: sessions_keeping(w2.state, e.at.href, set_cookies_of(r.headers, r.headers.len() as int)),
                ..w2
            }
        } else {
            w2
        };
        if let Some(Ok(next)) = redirected(e, r.status, r.headers) {
            if 0 <= e.redirects && next.redirects <= MAX_REDIRECTS {
                lemma_asked_stays(c, next, limit, w3, o);
                let end = exchanged(c, next, limit, w3, o).1.asked;
                assert(end.subrange(0, w3.asked.len() as int) == w3.asked);
                assert(end.subrange(0, w.asked.len() as int) =~= w.asked) by {
                    assert(forall|i: int| 0 <= i < w3.asked.len() ==> end[i] == end.subrange(0, w3.asked.len() as int)[i]);
                }
            }
        }
    }
}

/// A request sends its method, its headers and its body to its address, through
/// its proxy and within its limits; with a jar, and without cookies of its own,
/// it asks the jar for those of the address and sends these too.
pub proof fn law_request_is_sent(
    c: ClientV,
    method: Method,
    url: Seq<char>,
    headers: Seq<(Seq<char>, Seq<char>)>,
    body: Option<Seq<char>>,
    limit: Option<usize>,
    w: World,
    o: Oracle,
)
    requires
        started(method, url, headers, body) is Ok,
    ensures
        ({
            let n = w.asked.len() as int;
            let u = url_read(url)->Ok_0;
            let own = Seq::new(headers.len(), |i: int| (lower_ascii_of(headers[i].0), headers[i].1));
            let asked = executed(c, method, url, headers, body, limit, w, o).1.asked;
            let wire = |h: Seq<(Seq<char>, Seq<char>)>|
                AskV::Send(
                    WireV { proxy: c.proxy, timeout_ms: c.timeout_ms, method, url: u.href, headers: h, body, limit },
                );
            &&& !c.cookies || has_header(own, "cookie"@) ==> asked.len() > n && asked[n] == wire(own)
            &&& c.cookies && !has_header(own, "cookie"@) ==> {
                &&& asked.len() > n + 1
                &&& asked[n] == AskV::Jar(u.href)
                &&& match o(n).cookies {
                    Some(t) => is_header_value(t) ==> asked[n + 1] == wire(own.push(("cookie"@, t))),
                    None => asked[n + 1] == wire(own),
                }
            }
        }),
{
    let e = started(method, url, headers, body)->Ok_0;
    let n = w.asked.len() as int;
    let own = Seq::new(headers.len(), |i: int| (lower_ascii_of(headers[i].0), headers[i].1));
    assert(lower_names(headers) =~= own);
    let asks = asks_cookies(c, e);
    let cookies = if asks {
        next_answer(w, o).cookies
    } else {
        None
    };
    let w1 = if asks {
        after(w, AskV::Jar(e.at.href))
    } else {
        w
    };
    let sent = AskV::Send(wire_of(c, e, cookies, limit));
    let w2 = after(w1, sent);
    let end = exchanged(c, e, limit, w, o).1.asked;
    assert(w2.asked.is_prefix_of(end)) by {
        if let Ok(r) = next_answer(w1, o).reply {
            let w3 = if c.cookies {
                World {
                    state: sessions_keeping(w2.state, e.at.href, set_cookies_of(r.headers, r.headers.len() as int)),
                    ..w2
                }
            } else {
                w2
            };
            if let Some(Ok(next)) = redirected(e, r.status, r.headers) {
                lemma_asked_stays(c, next, limit, w3, o);
            } else {
                assert(end.subrange(0, w2.asked.len() as int) =~= w2.asked);
            }
        } else {
            assert(end.subrange(0, w2.asked.len() as int) =~= w2.asked);
        }
    }
    let m = w2.asked.len() as int;
    assert(end.subrange(0, m) == w2.asked);
    assert(end[m - 1] == end.subrange(0, m)[m - 1]);
    assert(end[n] == end.subrange(0, m)[n]);
}

/// A reply that redirects nowhere is the end of a request: it is found at the
/// address that was asked, and has all its bytes unless they are too many.
pub proof fn law_reply_is_the_end(c: ClientV, e: ExchangeV, limit: Option<usize>, r: RawV, w: World, o: Oracle)
    requires
        !c.cookies,
        o(w.asked.len() as int).reply == Ok::<RawV, ClientFaultV>(r),
        header_from(r.headers, "location"@, 0) is None || r.status < 300 || r.status >= 400,
    ensures
        ({
            let got = exchanged(c, e, limit, w, o).0;
            if limit is Some && r.body.len() > limit->0 {
                got == Err::<RawV, ClientFaultV>(ClientFaultV::ResponseTooLarge { url: e.at.href, limit: limit->0 })
            } else {
                got matches Ok(x) && x.url == e.at.href && x.status == r.status && x.headers == r.headers && x.body
                    == r.body
            }
        }),
{
}

/// A reply that redirects is followed to the address that it names, seen from
/// the address that was asked. A posted form becomes a request for the page
/// after the statuses that ask for it, and is sent again after the others.
pub proof fn law_redirect_is_followed(
    e: ExchangeV,
    status: u16,
    h: Seq<(Seq<char>, Option<Seq<char>>)>,
    reference: Seq<char>,
    joined: Seq<char>,
    u: UrlV,
)
    requires
        header_from(h, "location"@, 0) == Some(reference),
        e.redirects < MAX_REDIRECTS,
        url_joined(e.at.href, reference) == Some(Ok::<Seq<char>, Seq<char>>(joined)),
        url_read(joined) == Ok::<UrlV, Seq<char>>(u),
        u.scheme == "http"@ || u.scheme == "https"@,
    ensures
        status == 301 || status == 302 || status == 303 || status == 307 || status == 308 ==> {
            &&& redirected(e, status, h) matches Some(Ok(next)) && next.at == u && next.redirects == e.redirects + 1
        },
        (status == 307 || status == 308) ==> {
            &&& redirected(e, status, h) matches Some(Ok(next)) && next.method == e.method && next.body == e.body
        },
        (status == 301 || status == 302 || status == 303) && e.method == Method::Post ==> {
            &&& redirected(e, status, h) matches Some(Ok(next)) && next.method == Method::Get && next.body is None
        },
        (status == 301 || status == 302) && e.method != Method::Post ==> {
            &&& redirected(e, status, h) matches Some(Ok(next)) && next.method == e.method && next.body == e.body
        },
        200 <= status < 300 || status >= 400 ==> redirected(e, status, h) is None,
{
}

/// The value of a name in lower case among headers.
pub open spec fn value_named(h: Seq<(Seq<char>, Seq<char>)>, name: Seq<char>, k: int) -> Option<Seq<char>>
    decreases h.len() - k,
{
    if k < 0 || k >= h.len() {
        None
    } else if h[k].0 == name {
        Some(h[k].1)
    } else {
        value_named(h, name, k + 1)
    }
}

proof fn lemma_value_added(
    h: Seq<(Seq<char>, Seq<char>)>,
    name: Seq<char>,
    value: Seq<char>,
    other: Seq<char>,
    k: int,
    j: int,
)
    requires
        0 <= j <= k <= h.len(),
        forall|i: int| j <= i < k ==> (#[trigger] h[i]).0 != name,
    ensures
        value_named(with_value(h, name, value, k), name, j) == Some(
            match value_named(h, name, k) {
                Some(v) => v + ", "@ + value,
                None => value,
            },
        ),
        other != name ==> value_named(with_value(h, name, value, k), other, j) == value_named(h, other, j),
    decreases h.len() - k, h.len() - j,
{
    let r = with_value(h, name, value, k);
    if k < h.len() && h[k].0 != name {
        lemma_value_added(h, name, value, other, k + 1, j);
    } else if j < k {
        assert(r[j] == h[j]);
        lemma_value_added(h, name, value, other, k, j + 1);
    } else if k < h.len() {
        assert(r[k] == (name, h[k].1 + ", "@ + value));
        lemma_value_after(h, k, (name, h[k].1 + ", "@ + value), other, k + 1);
    } else {
        assert(r[k] == (name, value));
        assert(value_named(r, other, k + 1) is None);
    }
}

proof fn lemma_value_after(
    h: Seq<(Seq<char>, Seq<char>)>,
    k: int,
    pair: (Seq<char>, Seq<char>),
    other: Seq<char>,
    j: int,
)
    requires
        0 <= k < j <= h.len(),
    ensures
        value_named(h.update(k, pair), other, j) == value_named(h, other, j),
    decreases h.len() - j,
{
    if j < h.len() {
        assert(h.update(k, pair)[j] == h[j]);
        lemma_value_after(h, k, pair, other, j + 1);
    }
}

/// One more header of a response is added to those of its name, in whatever
/// case it is written, behind a comma; all other headers stay.
pub proof fn law_headers_are_joined(
    h: Seq<(Seq<char>, Option<Seq<char>>)>,
    name: Seq<char>,
    value: Seq<char>,
    other: Seq<char>,
)
    ensures
        ({
            let more = h.push((name, Some(value)));
            let before = joined_headers(h, h.len() as int);
            let after = joined_headers(more, more.len() as int);
            let low = lower_ascii_of(name);
            &&& value_named(after, low, 0) == Some(
                match value_named(before, low, 0) {
                    Some(v) => v + ", "@ + value,
                    None => value,
                },
            )
            &&& other != low ==> value_named(after, other, 0) == value_named(before, other, 0)
        }),
{
    let more = h.push((name, Some(value)));
    lemma_joined_same(h, more, h.len() as int);
    assert(more[h.len() as int] == (name, Some(value)));
    lemma_value_added(joined_headers(h, h.len() as int), lower_ascii_of(name), value, other, 0, 0);
}

proof fn lemma_joined_same(
    a: Seq<(Seq<char>, Option<Seq<char>>)>,
    b: Seq<(Seq<char>, Option<Seq<char>>)>,
    n: int,
)
    requires
        0 <= n <= a.len() <= b.len(),
        forall|i: int| 0 <= i < a.len() ==> #[trigger] a[i] == b[i],
    ensures
        joined_headers(a, n) == joined_headers(b, n),
    decreases n,
{
    if n > 0 {
        lemma_joined_same(a, b, n - 1);
        assert(a[n - 1] == b[n - 1]);
    }
}

/// A response that says it is XML has a declaration, its own or one that is put
/// ahead of its text; other texts are given as they are.
pub proof fn law_xml_has_declaration(raw: Seq<u8>, text: Seq<char>, kind: Seq<char>)
    requires
        split_of(kind, ";"@).len() > 0,
        trim_of(split_of(kind, ";"@)[0]) == split_of(kind, ";"@)[0],
    ensures
        ({
            let mime = lower_ascii_of(split_of(kind, ";"@)[0]);
            let r = body_text(raw, text, Some(kind), None);
            &&& mime == "text/xml"@ || mime == "application/xml"@ || has_suffix(mime, "+xml"@) ==> {
                &&& has_prefix(text, "<?xml"@) ==> r == text
                &&& !has_prefix(text, "<?xml"@) ==> r == "<?xml version=\"1.0\"?>"@ + text
            }
            &&& mime == "text/html"@ || mime == "text/plain"@ || mime == "application/json"@ ==> r == text
        }),
        body_text(raw, text, None, None) == text,
{
    reveal_strlit("text/html");
    reveal_strlit("text/plain");
    reveal_strlit("application/json");
    reveal_strlit("text/xml");
    reveal_strlit("application/xml");
    reveal_strlit("+xml");
    let none: Option<Seq<char>> = None;
    assert(crate::parser::field::or_blank(none) =~= seq![]);
    crate::util::chars::lemma_trim_len(Seq::<char>::empty());
    let mime = lower_ascii_of(split_of(kind, ";"@)[0]);
    assert("text/html"@.len() == 9 && "text/plain"@.len() == 10 && "application/json"@.len() == 16 && "text/xml"@.len()
        == 8 && "application/xml"@.len() == 15 && "+xml"@.len() == 4 && "+xml"@[0] == '+');
    assert("text/html"@[5] == 'h' && "text/plain"@[6] == 'l' && "application/json"@[12] == 'j');
    if has_suffix(mime, "+xml"@) {
        assert(mime.subrange(mime.len() - 4, mime.len() as int)[0] == mime[mime.len() - 4]);
    }
}

} // verus!
