//! The requests that scripts send, and what they get back.

use crate::crawler::fetch::{executed, ClientV, HttpClient};
use crate::crawler::http::{ClientFaultV, HttpClientError};
use crate::crawler::response::{decode_body, decoded_body, header_from, header_text, raw_headers, RawResponse, RawV};
use crate::crawler::url_rule::{
    analyze_url_with_headers, analyzed, opt_pairs, plain_text, value_to_string, Method, RequestSpec, RequestV,
};
use crate::executor::login::{find_web_address, web_address};
use crate::ext::codec::{lossy_text, read_lossy};
use crate::ext::headers::{is_name_char, status_reason, status_words};
use crate::ext::json::{
    integer_text, json_integer, json_of, json_text_of, json_to_text, lemma_object_model, member_models, member_of,
    parse_json, put, set_member, Json, JsonV,
};
use crate::ext::xml::pairs;
use crate::model::book_source::BookSource;
use crate::parser::context::with_pair;
use crate::parser::field::or_blank;
use crate::parser::script::{
    agrees, extends, group_log, lemma_extends_on, reply_model, Host, Oracle, ScriptEngine, Transport, World,
};
use crate::util::bytes::{hex_text, to_hex};
use crate::util::chars::{
    chars_of, concat, concat3, copy, decimal, decimal_of, has_prefix, is_ascii_letter_char, is_digit_char,
    is_empty_text, join, join_of, opt_str, opt_text, same, starts_with, string_range, texts, to_uppercase, trim,
    trim_of, upper_of,
};
use vstd::prelude::*;
use vstd::string::*;

verus! {

/// What a scan of a request's text remembers.
pub struct AjaxScan {
    pub depth: int,
    pub quote: Option<char>,
    pub escaped: bool,
}

pub open spec fn ajax_step(p: AjaxScan, c: char) -> AjaxScan {
    if p.escaped {
        AjaxScan { escaped: false, ..p }
    } else if p.quote is Some {
        if c == '\\' {
            AjaxScan { escaped: true, ..p }
        } else if p.quote == Some(c) {
            AjaxScan { quote: None, ..p }
        } else {
            p
        }
    } else if c == '"' || c == '\'' {
        AjaxScan { quote: Some(c), ..p }
    } else if c == '{' || c == '[' {
        AjaxScan { depth: p.depth + 1, ..p }
    } else if c == '}' || c == ']' {
        AjaxScan { depth: p.depth - 1, ..p }
    } else {
        p
    }
}

/// The first comma outside quotes and brackets, from `i` on.
pub open spec fn ajax_comma(s: Seq<char>, i: int, p: AjaxScan) -> Option<int>
    decreases s.len() - i,
{
    if i < 0 || i >= s.len() {
        None
    } else if s[i] == ',' && !p.escaped && p.quote is None && p.depth == 0 {
        Some(i)
    } else {
        ajax_comma(s, i + 1, ajax_step(p, s[i]))
    }
}

/// A request's text as its address and its options.
pub open spec fn ajax_parts(s: Seq<char>) -> (Seq<char>, Option<Seq<char>>) {
    match ajax_comma(s, 0, AjaxScan { depth: 0, quote: None, escaped: false }) {
        Some(k) => (s.subrange(0, k), Some(trim_of(s.subrange(k + 1, s.len() as int)))),
        None => (s, None),
    }
}

/// Splits a request's text into its address and its options.
pub fn split_ajax_spec(spec: &str) -> (r: (String, Option<String>))
    ensures
        (r.0@, opt_text(r.1)) == ajax_parts(spec@),
{
    let v = chars_of(spec);
    let ghost s = spec@;
    let ghost start = AjaxScan { depth: 0, quote: None, escaped: false };
    let mut depth: i128 = 0;
    let mut quote: Option<char> = None;
    let mut escaped = false;
    let mut i: usize = 0;
    while i < v.len()
        invariant
            v@ == s,
            s == spec@,
            i <= v.len(),
            v.len() <= usize::MAX,
            -(i as int) <= depth <= i,
            start == (AjaxScan { depth: 0, quote: None, escaped: false }),
            ajax_comma(s, 0, start) == ajax_comma(
                s,
                i as int,
                AjaxScan { depth: depth as int, quote, escaped },
            ),
        decreases v.len() - i,
    {
        let c = v[i];
        if escaped {
            escaped = false;
        } else if let Some(q) = quote {
            if c == '\\' {
                escaped = true;
            } else if c == q {
                quote = None;
            }
        } else if c == ',' && depth == 0 {
            return (string_range(&v, 0, i), Some(trim(string_range(&v, i + 1, v.len()).as_str())));
        } else if c == '"' || c == '\'' {
            quote = Some(c);
        } else if c == '{' || c == '[' {
            depth = depth + 1;
        } else if c == '}' || c == ']' {
            depth = depth - 1;
        }
        i = i + 1;
    }
    (copy(spec), None)
}

/// The headers that the first `n` members of an object give; `null` gives none.
pub open spec fn script_headers(m: Seq<(Seq<char>, JsonV)>, n: int) -> Seq<(Seq<char>, Seq<char>)>
    decreases n,
{
    if n <= 0 {
        seq![]
    } else {
        match plain_text(m[n - 1].1) {
            Some(t) => script_headers(m, n - 1).push((m[n - 1].0, t)),
            None => script_headers(m, n - 1),
        }
    }
}

/// The headers of a value; none where it is no object.
pub open spec fn headers_in(v: Option<JsonV>) -> Seq<(Seq<char>, Seq<char>)> {
    match v {
        Some(JsonV::Object(m)) => script_headers(m, m.len() as int),
        _ => seq![],
    }
}

pub fn members_as_headers(m: &Vec<(String, Json)>) -> (r: Vec<(String, String)>)
    ensures
        pairs(r@) == script_headers(member_models(m@), m.len() as int),
{
    let ghost all = member_models(m@);
    let mut r: Vec<(String, String)> = Vec::new();
    let mut k: usize = 0;
    assert(pairs(r@) =~= seq![]);
    while k < m.len()
        invariant
            k <= m.len(),
            all == member_models(m@),
            pairs(r@) == script_headers(all, k as int),
        decreases m.len() - k,
    {
        assert(all[k as int] == (m@[k as int].0@, m@[k as int].1.model()));
        if let Some(t) = value_to_string(&m[k].1) {
            let name = m[k].0.clone();
            let ghost before = pairs(r@);
            let ghost x = (name@, t@);
            r.push((name, t));
            assert(pairs(r@) =~= before.push(x));
        }
        k = k + 1;
    }
    r
}

pub fn collect_headers(v: Option<&Json>) -> (r: Vec<(String, String)>)
    ensures
        match v {
            Some(x) => pairs(r@) == headers_in(Some(x.model())),
            None => pairs(r@) == headers_in(None),
        },
{
    broadcast use lemma_object_model;

    if let Some(Json::Object(m)) = v {
        assert(member_models(m@).len() == m.len());
        return members_as_headers(m);
    }
    let r: Vec<(String, String)> = Vec::new();
    assert(pairs(r@) =~= seq![]);
    r
}

/// The headers that a script gives in JSON.
pub fn java_request_headers(headers_json: &str) -> (r: Vec<(String, String)>)
    ensures
        pairs(r@) == headers_in(json_of(headers_json@)),
{
    match parse_json(headers_json) {
        Some(v) => collect_headers(Some(&v)),
        None => collect_headers(None),
    }
}

/// The method of that name. One that the standard does not know cannot be sent;
/// a text that is no method at all stands for `GET`.
pub open spec fn method_named(name: Seq<char>) -> Option<Method> {
    if name == "GET"@ {
        Some(Method::Get)
    } else if name == "POST"@ {
        Some(Method::Post)
    } else if name == "HEAD"@ {
        Some(Method::Head)
    } else if name == "PUT"@ {
        Some(Method::Put)
    } else if name == "DELETE"@ {
        Some(Method::Delete)
    } else if name == "CONNECT"@ {
        Some(Method::Connect)
    } else if name == "OPTIONS"@ {
        Some(Method::Options)
    } else if name == "TRACE"@ {
        Some(Method::Trace)
    } else if name == "PATCH"@ {
        Some(Method::Patch)
    } else if is_method_name(name) {
        None
    } else {
        Some(Method::Get)
    }
}

/// Whether a text has the form of a method.
pub open spec fn is_method_name(name: Seq<char>) -> bool {
    name.len() > 0 && forall|i: int| 0 <= i < name.len() ==> is_name_char(#[trigger] name[i])
}

pub fn name_char(c: char) -> (r: bool)
    ensures
        r == is_name_char(c),
{
    proof {
        reveal_strlit("!#$%&'*+-.^_`|~");
        let marks = "!#$%&'*+-.^_`|~"@;
        assert(marks[0] == '!' && marks[1] == '#' && marks[2] == '$' && marks[3] == '%' && marks[4] == '&' && marks[5]
            == '\'' && marks[6] == '*' && marks[7] == '+' && marks[8] == '-' && marks[9] == '.' && marks[10] == '^'
            && marks[11] == '_' && marks[12] == '`' && marks[13] == '|' && marks[14] == '~');
    }
    is_ascii_letter_char(c) || is_digit_char(c) || c == '!' || c == '#' || c == '$' || c == '%' || c == '&' || c == '\''
        || c == '*' || c == '+' || c == '-' || c == '.' || c == '^' || c == '_' || c == '`' || c == '|' || c == '~'
}

pub fn has_method_form(name: &str) -> (r: bool)
    ensures
        r == is_method_name(name@),
{
    let v = chars_of(name);
    let mut k: usize = 0;
    while k < v.len()
        invariant
            v@ == name@,
            k <= v.len(),
            forall|i: int| 0 <= i < k ==> is_name_char(#[trigger] name@[i]),
        decreases v.len() - k,
    {
        if !name_char(v[k]) {
            return false;
        }
        k = k + 1;
    }
    v.len() > 0
}

pub fn find_method(name: &str) -> (r: Option<Method>)
    ensures
        r == method_named(name@),
{
    if same(name, "GET") {
        Some(Method::Get)
    } else if same(name, "POST") {
        Some(Method::Post)
    } else if same(name, "HEAD") {
        Some(Method::Head)
    } else if same(name, "PUT") {
        Some(Method::Put)
    } else if same(name, "DELETE") {
        Some(Method::Delete)
    } else if same(name, "CONNECT") {
        Some(Method::Connect)
    } else if same(name, "OPTIONS") {
        Some(Method::Options)
    } else if same(name, "TRACE") {
        Some(Method::Trace)
    } else if same(name, "PATCH") {
        Some(Method::Patch)
    } else if has_method_form(name) {
        None
    } else {
        Some(Method::Get)
    }
}

/// What comes of a request by a method that is named.
pub open spec fn sent_by_name(
    c: ClientV,
    method: Seq<char>,
    url: Seq<char>,
    headers: Seq<(Seq<char>, Seq<char>)>,
    body: Option<Seq<char>>,
    w: World,
    o: Oracle,
) -> (Result<RawV, ClientFaultV>, World) {
    match method_named(method) {
        Some(m) => executed(c, m, url, headers, body, None, w, o),
        None => (Err(ClientFaultV::Network("unsupported method: "@ + method)), w),
    }
}

pub fn send_by_name<E: Transport>(
    client: &HttpClient,
    method: &str,
    url: &str,
    headers: &Vec<(String, String)>,
    body: Option<&str>,
    host: &mut Host<E>,
) -> (r: Result<RawResponse, HttpClientError>)
    ensures
        extends(old(host).log(), final(host).log()),
        forall|o: Oracle| #[trigger]
            agrees(final(host).log(), o) ==> sent_by_name(
                client.model(),
                method@,
                url@,
                pairs(headers@),
                opt_str(body),
                old(host).world(),
                o,
            ) == (reply_model(r), final(host).world()),
{
    broadcast use group_log;

    match find_method(method) {
        Some(m) => client.execute(m, url, headers, body, None, host),
        None => Err(HttpClientError::Network(concat("unsupported method: ", method))),
    }
}

/// The text of a response, whatever its bytes are.
pub open spec fn reply_text(r: Result<RawV, ClientFaultV>) -> Result<Seq<char>, ClientFaultV> {
    match r {
        Ok(x) => Ok(lossy_text(x.body)),
        Err(f) => Err(f),
    }
}

pub open spec fn text_result(r: Result<String, HttpClientError>) -> Result<Seq<char>, ClientFaultV> {
    match r {
        Ok(t) => Ok(t@),
        Err(f) => Err(f.model()),
    }
}

/// Sends a request for a script and gives the text of the response.
pub fn java_request_simple<E: Transport>(
    client: &HttpClient,
    method: &str,
    url: &str,
    body: Option<&str>,
    headers_json: &str,
    host: &mut Host<E>,
) -> (r: Result<String, HttpClientError>)
    ensures
        extends(old(host).log(), final(host).log()),
        forall|o: Oracle| #[trigger]
            agrees(final(host).log(), o) ==> ({
                let x = sent_by_name(
                    client.model(),
                    method@,
                    trim_of(url@),
                    headers_in(json_of(headers_json@)),
                    opt_str(body),
                    old(host).world(),
                    o,
                );
                (reply_text(x.0), x.1)
            }) == (text_result(r), final(host).world()),
{
    let headers = java_request_headers(headers_json);
    match send_by_name(client, method, trim(url).as_str(), &headers, body, host) {
        Ok(x) => Ok(read_lossy(&x.body)),
        Err(f) => Err(f),
    }
}

/// The options of a request's text; `null` where there are none.
pub open spec fn ajax_options(spec: Seq<char>) -> JsonV {
    match ajax_parts(spec).1 {
        Some(t) => match json_of(t) {
            Some(v) => v,
            None => JsonV::Null,
        },
        None => JsonV::Null,
    }
}

/// The method that options name; `GET` where they name none.
pub open spec fn ajax_method(options: JsonV) -> Seq<char> {
    match member_of(options, "method"@) {
        Some(JsonV::Text(t)) => upper_of(t),
        _ => upper_of("GET"@),
    }
}

/// The body that options give.
pub open spec fn ajax_body(options: JsonV) -> Option<Seq<char>> {
    match member_of(options, "body"@) {
        Some(v) => plain_text(v),
        None => None,
    }
}

/// What `java.ajax` gives: the text of the response; empty where the address is
/// or the request fails.
pub open spec fn ajax_answer(c: ClientV, spec: Seq<char>, w: World, o: Oracle) -> (Seq<char>, World) {
    let url = trim_of(ajax_parts(spec).0);
    let options = ajax_options(spec);
    if url.len() == 0 {
        (seq![], w)
    } else {
        let x = sent_by_name(
            c,
            ajax_method(options),
            url,
            headers_in(member_of(options, "headers"@)),
            ajax_body(options),
            w,
            o,
        );
        (
            match x.0 {
                Ok(r) => lossy_text(r.body),
                Err(_) => seq![],
            },
            x.1,
        )
    }
}

fn blank() -> (r: String)
    ensures
        r@ == Seq::<char>::empty(),
{
    let r = String::new();
    assert(r@ =~= Seq::<char>::empty());
    r
}

fn opt_ref(o: &Option<String>) -> (r: Option<&str>)
    ensures
        opt_str(r) == opt_text(*o),
{
    match o {
        Some(s) => Some(s.as_str()),
        None => None,
    }
}

/// Sends the request that a script writes in one text.
pub fn java_ajax<E: Transport>(client: &HttpClient, spec: &str, host: &mut Host<E>) -> (r: String)
    ensures
        extends(old(host).log(), final(host).log()),
        forall|o: Oracle| #[trigger]
            agrees(final(host).log(), o) ==> ajax_answer(client.model(), spec@, old(host).world(), o) == (
                r@,
                final(host).world(),
            ),
{
    broadcast use group_log;

    let (address, rest) = split_ajax_spec(spec);
    let url = trim(address.as_str());
    if is_empty_text(url.as_str()) {
        return blank();
    }
    let options = match rest {
        Some(t) => match parse_json(t.as_str()) {
            Some(v) => v,
            None => Json::Null,
        },
        None => Json::Null,
    };
    assert(options.model() == ajax_options(spec@));
    let method = match options.get("method") {
        Some(Json::Text(t)) => to_uppercase(t.as_str()),
        Some(_) => to_uppercase("GET"),
        None => to_uppercase("GET"),
    };
    let headers = collect_headers(options.get("headers"));
    let body = match options.get("body") {
        Some(v) => value_to_string(v),
        None => None,
    };
    match send_by_name(client, method.as_str(), url.as_str(), &headers, opt_ref(&body), host) {
        Ok(x) => read_lossy(&x.body),
        Err(_) => blank(),
    }
}

/// The first `n` headers of a response that are texts, by name; of two of one
/// name the last.
pub open spec fn reply_headers(h: Seq<(Seq<char>, Option<Seq<char>>)>, n: int) -> Seq<(Seq<char>, JsonV)>
    decreases n,
{
    if n <= 0 {
        seq![]
    } else {
        match h[n - 1].1 {
            Some(t) => with_pair(reply_headers(h, n - 1), h[n - 1].0, JsonV::Text(t), 0),
            None => reply_headers(h, n - 1),
        }
    }
}

pub fn headers_value(h: &Vec<(String, Option<String>)>) -> (r: Json)
    ensures
        r.model() == JsonV::Object(reply_headers(raw_headers(h@), h.len() as int)),
{
    broadcast use lemma_object_model;

    let ghost all = raw_headers(h@);
    let mut m: Vec<(String, Json)> = Vec::new();
    let mut k: usize = 0;
    assert(member_models(m@) =~= seq![]);
    while k < h.len()
        invariant
            k <= h.len(),
            all == raw_headers(h@),
            member_models(m@) == reply_headers(all, k as int),
        decreases h.len() - k,
    {
        assert(all[k as int] == (h@[k as int].0@, opt_text(h@[k as int].1)));
        if let Some(t) = &h[k].1 {
            set_member(&mut m, h[k].0.clone(), Json::Text(t.clone()));
        }
        k = k + 1;
    }
    Json::Object(m)
}

/// A response as scripts get it.
pub open spec fn payload(
    body: Seq<char>,
    url: Seq<char>,
    code: int,
    message: Seq<char>,
    headers: JsonV,
    success: bool,
) -> JsonV {
    JsonV::Object(
        seq![
            ("__ffiStrResponse"@, JsonV::Bool(true)),
            ("body"@, JsonV::Text(body)),
            ("url"@, JsonV::Text(url)),
            ("code"@, JsonV::Number(integer_text(code))),
            ("message"@, JsonV::Text(message)),
            ("headers"@, headers),
            ("isSuccessful"@, JsonV::Bool(success)),
        ],
    )
}

pub fn write_payload(body: String, url: String, code: u16, message: String, headers: Json, success: bool) -> (r: Json)
    ensures
        r.model() == payload(body@, url@, code as int, message@, headers.model(), success),
{
    broadcast use lemma_object_model;

    let ghost goal = payload(body@, url@, code as int, message@, headers.model(), success);
    let mut m: Vec<(String, Json)> = Vec::new();
    assert(member_models(m@) =~= seq![]);
    put(&mut m, "__ffiStrResponse", Json::Bool(true));
    put(&mut m, "body", Json::Text(body));
    put(&mut m, "url", Json::Text(url));
    put(&mut m, "code", Json::Number(json_integer(code as i128)));
    put(&mut m, "message", Json::Text(message));
    put(&mut m, "headers", headers);
    put(&mut m, "isSuccessful", Json::Bool(success));
    assert(member_models(m@) =~= goal->Object_0);
    Json::Object(m)
}

fn no_members() -> (r: Json)
    ensures
        r.model() == JsonV::Object(seq![]),
{
    broadcast use lemma_object_model;

    let m: Vec<(String, Json)> = Vec::new();
    assert(member_models(m@) =~= seq![]);
    Json::Object(m)
}

/// What is said of a request that failed.
pub open spec fn fault_text(f: ClientFaultV) -> Seq<char> {
    match f {
        ClientFaultV::InvalidUrl(m) => m,
        ClientFaultV::Timeout(m) => m,
        ClientFaultV::Network(m) => m,
        ClientFaultV::ResponseTooLarge { url, limit } => "response from "@ + url + " exceeds "@ + decimal_of(limit as int)
            + " bytes"@,
    }
}

impl HttpClientError {
    /// What is said of a request that failed.
    pub fn to_text(&self) -> (r: String)
        ensures
            r@ == fault_text(self.model()),
    {
        match self {
            HttpClientError::InvalidUrl(m) => m.clone(),
            HttpClientError::Timeout(m) => m.clone(),
            HttpClientError::Network(m) => m.clone(),
            HttpClientError::ResponseTooLarge { url, limit } => {
                let head = concat3("response from ", url.as_str(), " exceeds ");
                concat3(head.as_str(), decimal(*limit as u64).as_str(), " bytes")
            },
        }
    }
}

/// A response, or the error of a request, as scripts get it.
pub open spec fn simple_payload(r: Result<RawV, ClientFaultV>, url: Seq<char>) -> JsonV {
    match r {
        Ok(x) => payload(
            lossy_text(x.body),
            x.url,
            x.status as int,
            status_words(x.status as int),
            JsonV::Object(reply_headers(x.headers, x.headers.len() as int)),
            200 <= x.status < 300,
        ),
        Err(f) => payload(fault_text(f), url, 0, seq![], JsonV::Object(seq![]), false),
    }
}

pub fn simple_response(r: Result<RawResponse, HttpClientError>, url: &str) -> (v: Json)
    ensures
        v.model() == simple_payload(reply_model(r), url@),
{
    match r {
        Ok(x) => {
            assert(raw_headers(x.headers@).len() == x.headers.len());
            let headers = headers_value(&x.headers);
            write_payload(
                read_lossy(&x.body),
                x.url,
                x.status,
                status_reason(x.status),
                headers,
                200 <= x.status && x.status < 300,
            )
        },
        Err(f) => write_payload(f.to_text(), copy(url), 0, blank(), no_members(), false),
    }
}

/// What `java.get`, `java.post` and `java.head` give.
pub open spec fn simple_answer(
    c: ClientV,
    method: Seq<char>,
    url: Seq<char>,
    body: Option<Seq<char>>,
    headers_json: Seq<char>,
    w: World,
    o: Oracle,
) -> (JsonV, World) {
    let x = sent_by_name(c, method, trim_of(url), headers_in(json_of(headers_json)), body, w, o);
    (simple_payload(x.0, trim_of(url)), x.1)
}

pub fn simple_value<E: Transport>(
    client: &HttpClient,
    method: &str,
    url: &str,
    body: Option<&str>,
    headers_json: &str,
    host: &mut Host<E>,
) -> (r: Json)
    ensures
        extends(old(host).log(), final(host).log()),
        forall|o: Oracle| #[trigger]
            agrees(final(host).log(), o) ==> simple_answer(
                client.model(),
                method@,
                url@,
                opt_str(body),
                headers_json@,
                old(host).world(),
                o,
            ) == (r.model(), final(host).world()),
{
    let headers = java_request_headers(headers_json);
    let t = trim(url);
    let reply = send_by_name(client, method, t.as_str(), &headers, body, host);
    simple_response(reply, t.as_str())
}

/// Sends a request for a script and gives the response in JSON.
pub fn java_request_simple_response<E: Transport>(
    client: &HttpClient,
    method: &str,
    url: &str,
    body: Option<&str>,
    headers_json: &str,
    host: &mut Host<E>,
) -> (r: String)
    ensures
        extends(old(host).log(), final(host).log()),
        forall|o: Oracle| #[trigger]
            agrees(final(host).log(), o) ==> ({
                let x = simple_answer(
                    client.model(),
                    method@,
                    url@,
                    opt_str(body),
                    headers_json@,
                    old(host).world(),
                    o,
                );
                (json_text_of(x.0), x.1)
            }) == (r@, final(host).world()),
{
    let v = simple_value(client, method, url, body, headers_json, host);
    json_to_text(&v)
}

/// An error as a response with the error for its text.
pub open spec fn error_payload(url: Seq<char>, error: Seq<char>) -> JsonV {
    payload(
        error,
        match web_address(trim_of(ajax_parts(url).0)) {
            Some(u) => u,
            None => "http://localhost/"@,
        },
        200,
        "OK"@,
        JsonV::Object(seq![]),
        true,
    )
}

pub fn error_response(url: &str, error: String) -> (r: Json)
    ensures
        r.model() == error_payload(url@, error@),
{
    let (address, _) = split_ajax_spec(url);
    let shown = match find_web_address(trim(address.as_str()).as_str()) {
        Some(u) => u,
        None => "http://localhost/".to_owned(),
    };
    write_payload(error, shown, 200, "OK".to_owned(), no_members(), true)
}

/// The bytes of a response as the text that its request asks for.
pub open spec fn analyzed_body(r: RawV, q: RequestV) -> Seq<char> {
    if trim_of(or_blank(q.response_type)).len() > 0 {
        hex_text(r.body)
    } else {
        decoded_body(r.body, q.charset, header_from(r.headers, "content-type"@, 0))
    }
}

/// The response to a request that was compiled from a rule.
pub open spec fn analyzed_payload(r: RawV, q: RequestV) -> JsonV {
    payload(
        analyzed_body(r, q),
        r.url,
        r.status as int,
        status_words(r.status as int),
        JsonV::Object(reply_headers(r.headers, r.headers.len() as int)),
        200 <= r.status < 300,
    )
}

pub fn analyzed_response(x: RawResponse, spec: &RequestSpec) -> (r: Json)
    ensures
        r.model() == analyzed_payload(x.model(), spec.model()),
{
    proof {
        crate::util::chars::lemma_trim_len(seq![]);
    }
    assert(raw_headers(x.headers@).len() == x.headers.len());
    let headers = headers_value(&x.headers);
    let asked = match &spec.response_type {
        Some(t) => !is_empty_text(trim(t.as_str()).as_str()),
        None => false,
    };
    let body = if asked {
        to_hex(&x.body)
    } else {
        let content_type = header_text(&x.headers, "content-type");
        decode_body(&x.body, opt_ref(&spec.charset), opt_ref(&content_type))
    };
    write_payload(
        body,
        x.url,
        x.status,
        status_reason(x.status),
        headers,
        200 <= x.status && x.status < 300,
    )
}

/// The headers that a script gives for a request, if it gives any.
pub open spec fn explicit_headers(headers_json: Seq<char>) -> Option<Seq<(Seq<char>, Seq<char>)>> {
    if headers_json.len() == 0 {
        None
    } else {
        Some(headers_in(json_of(headers_json)))
    }
}

/// What a request without a source comes to: a failed one is answered with its error.
pub open spec fn plain_connect(c: ClientV, url: Seq<char>, headers_json: Seq<char>, w: World, o: Oracle) -> (JsonV, World) {
    let x = sent_by_name(c, "GET"@, trim_of(url), headers_in(json_of(headers_json)), None, w, o);
    (
        match x.0 {
            Ok(r) => if r.status == 0 {
                error_payload(url, lossy_text(r.body))
            } else {
                simple_payload(x.0, trim_of(url))
            },
            Err(f) => error_payload(url, fault_text(f)),
        },
        x.1,
    )
}

/// What a request that is compiled from a rule of a source comes to.
pub open spec fn source_connect(
    c: ClientV,
    source: BookSource,
    url: Seq<char>,
    headers_json: Seq<char>,
    w: World,
    o: Oracle,
) -> (JsonV, World) {
    let q = analyzed(explicit_headers(headers_json), url, ""@, 0, source.book_source_url@, source, w, o);
    match q.0 {
        Err(e) => (error_payload(url, e), q.1),
        Ok(spec) => {
            let x = executed(c, spec.method, spec.url, spec.headers, spec.body, None, q.1, o);
            (
                match x.0 {
                    Ok(r) => analyzed_payload(r, spec),
                    Err(f) => error_payload(spec.url, fault_text(f)),
                },
                x.1,
            )
        },
    }
}

/// What `java.connect` and `java.ajaxAll` give.
pub open spec fn connect_answer(
    c: ClientV,
    source: Option<BookSource>,
    url: Seq<char>,
    headers_json: Seq<char>,
    w: World,
    o: Oracle,
) -> (JsonV, World) {
    match source {
        None => plain_connect(c, url, headers_json, w, o),
        Some(s) => source_connect(c, s, url, headers_json, w, o),
    }
}

pub fn connect_plain<E: Transport>(client: &HttpClient, url: &str, headers_json: &str, host: &mut Host<E>) -> (r: Json)
    ensures
        extends(old(host).log(), final(host).log()),
        forall|o: Oracle| #[trigger]
            agrees(final(host).log(), o) ==> plain_connect(client.model(), url@, headers_json@, old(host).world(), o) == (
                r.model(),
                final(host).world(),
            ),
{
    let headers = java_request_headers(headers_json);
    let t = trim(url);
    match send_by_name(client, "GET", t.as_str(), &headers, None, host) {
        Ok(x) => {
            if x.status == 0 {
                return error_response(url, read_lossy(&x.body));
            }
            let r = Ok(x);
            simple_response(r, t.as_str())
        },
        Err(f) => error_response(url, f.to_text()),
    }
}

pub fn connect_source<E: ScriptEngine + Transport>(
    client: &HttpClient,
    source: &BookSource,
    url: &str,
    headers_json: &str,
    host: &mut Host<E>,
) -> (r: Json)
    ensures
        extends(old(host).log(), final(host).log()),
        forall|o: Oracle| #[trigger]
            agrees(final(host).log(), o) ==> source_connect(
                client.model(),
                *source,
                url@,
                headers_json@,
                old(host).world(),
                o,
            ) == (r.model(), final(host).world()),
{
    broadcast use group_log;

    let explicit = if is_empty_text(headers_json) {
        None
    } else {
        Some(java_request_headers(headers_json))
    };
    assert(opt_pairs(explicit) == explicit_headers(headers_json@));
    let compiled = analyze_url_with_headers(
        url,
        "",
        0,
        source.book_source_url.as_str(),
        source,
        explicit,
        host,
    );
    let ghost log1 = host.log();
    let spec = match compiled {
        Ok(s) => s,
        Err(e) => {
            return error_response(url, e);
        },
    };
    let reply = client.execute(spec.method, spec.url.as_str(), &spec.headers, opt_ref(&spec.body), None, host);
    proof {
        lemma_extends_on(old(host).log(), log1, host.log());
        assert forall|o: Oracle| #[trigger] agrees(host.log(), o) implies agrees(log1, o) by {}
    }
    match reply {
        Ok(x) => analyzed_response(x, &spec),
        Err(f) => error_response(spec.url.as_str(), f.to_text()),
    }
}

pub open spec fn opt_source(o: Option<&BookSource>) -> Option<BookSource> {
    match o {
        Some(s) => Some(*s),
        None => None,
    }
}

/// Sends the request that a URL rule stands for and gives the response in JSON.
pub fn java_analyzed_request_response<E: ScriptEngine + Transport>(
    client: &HttpClient,
    source: Option<&BookSource>,
    url: &str,
    headers_json: &str,
    host: &mut Host<E>,
) -> (r: String)
    ensures
        extends(old(host).log(), final(host).log()),
        forall|o: Oracle| #[trigger]
            agrees(final(host).log(), o) ==> ({
                let x = connect_answer(
                    client.model(),
                    opt_source(source),
                    url@,
                    headers_json@,
                    old(host).world(),
                    o,
                );
                (json_text_of(x.0), x.1)
            }) == (r@, final(host).world()),
{
    let v = match source {
        None => connect_plain(client, url, headers_json, host),
        Some(s) => connect_source(client, s, url, headers_json, host),
    };
    json_to_text(&v)
}

/// The scripts of a library that lists addresses: what the first `n` of its
/// entries that are addresses hold, or the first failure.
pub open spec fn lib_entries(c: ClientV, m: Seq<(Seq<char>, JsonV)>, n: int, w: World, o: Oracle) -> (
    Result<Seq<Seq<char>>, ClientFaultV>,
    World,
)
    decreases n,
{
    if n <= 0 {
        (Ok(seq![]), w)
    } else {
        let before = lib_entries(c, m, n - 1, w, o);
        match (before.0, m[n - 1].1) {
            (Err(f), _) => (Err(f), before.1),
            (Ok(list), JsonV::Text(t)) => if web_address(t) is None {
                before
            } else if web_address(trim_of(t)) is None {
                (Ok(list.push(trim_of(t))), before.1)
            } else {
                let x = executed(c, Method::Get, trim_of(t), seq![], None, None, before.1, o);
                (
                    match x.0 {
                        Ok(r) => Ok(list.push(lossy_text(r.body))),
                        Err(f) => Err(f),
                    },
                    x.1,
                )
            },
            (Ok(_), _) => before,
        }
    }
}

/// The script of a library: itself, or what the addresses that it lists hold.
pub open spec fn lib_compiled(c: ClientV, js_lib: Seq<char>, w: World, o: Oracle) -> (Result<Seq<char>, ClientFaultV>, World) {
    let t = trim_of(js_lib);
    match json_of(t) {
        Some(JsonV::Object(m)) => if has_prefix(t, "{"@) {
            let x = lib_entries(c, m, m.len() as int, w, o);
            (
                match x.0 {
                    Ok(list) => Ok(join_of(list, "\n"@)),
                    Err(f) => Err(f),
                },
                x.1,
            )
        } else {
            (Ok(t), w)
        },
        _ => (Ok(t), w),
    }
}

proof fn lemma_lib_fails(c: ClientV, m: Seq<(Seq<char>, JsonV)>, n: int, end: int, w: World, o: Oracle)
    requires
        0 <= n <= end <= m.len(),
        lib_entries(c, m, n, w, o).0 is Err,
    ensures
        lib_entries(c, m, end, w, o) == lib_entries(c, m, n, w, o),
    decreases end - n,
{
    if n < end {
        lemma_lib_fails(c, m, n, end - 1, w, o);
    }
}

pub fn fetch_lib<E: Transport>(client: &HttpClient, m: &Vec<(String, Json)>, host: &mut Host<E>) -> (r: Result<
    String,
    HttpClientError,
>)
    ensures
        extends(old(host).log(), final(host).log()),
        forall|o: Oracle| #[trigger]
            agrees(final(host).log(), o) ==> ({
                let x = lib_entries(client.model(), member_models(m@), m.len() as int, old(host).world(), o);
                (
                    match x.0 {
                        Ok(list) => Ok(join_of(list, "\n"@)),
                        Err(f) => Err(f),
                    },
                    x.1,
                )
            }) == (text_result(r), final(host).world()),
{
    broadcast use group_log;

    let ghost all = member_models(m@);
    let ghost c = client.model();
    let ghost w0 = host.world();
    let none: Vec<(String, String)> = Vec::new();
    assert(pairs(none@) =~= seq![]);
    let mut list: Vec<String> = Vec::new();
    assert(texts(list@) =~= seq![]);
    let mut k: usize = 0;
    while k < m.len()
        invariant
            k <= m.len(),
            all == member_models(m@),
            c == client.model(),
            w0 == old(host).world(),
            pairs(none@) == Seq::<(Seq<char>, Seq<char>)>::empty(),
            extends(old(host).log(), host.log()),
            forall|o: Oracle| #[trigger]
                agrees(host.log(), o) ==> lib_entries(c, all, k as int, w0, o) == (
                    Ok::<Seq<Seq<char>>, ClientFaultV>(texts(list@)),
                    host.world(),
                ),
        decreases m.len() - k,
    {
        let ghost log0 = host.log();
        let ghost before = texts(list@);
        assert(all[k as int] == (m@[k as int].0@, m@[k as int].1.model()));
        if let Some(t) = m[k].1.as_text() {
            if find_web_address(t).is_some() {
                let s = trim(t);
                let x = if find_web_address(s.as_str()).is_some() {
                    let reply = client.execute(Method::Get, s.as_str(), &none, None, None, host);
                    proof {
                        lemma_extends_on(old(host).log(), log0, host.log());
                        assert forall|o: Oracle| #[trigger] agrees(host.log(), o) implies agrees(log0, o) by {}
                    }
                    match reply {
                        Ok(x) => read_lossy(&x.body),
                        Err(f) => {
                            proof {
                                let f0 = f.model();
                                assert forall|o: Oracle| #[trigger] agrees(host.log(), o) implies lib_entries(
                                    c,
                                    all,
                                    m.len() as int,
                                    w0,
                                    o,
                                ) == (Err::<Seq<Seq<char>>, ClientFaultV>(f0), host.world()) by {
                                    assert(lib_entries(c, all, k + 1, w0, o).0 is Err);
                                    lemma_lib_fails(c, all, k + 1, m.len() as int, w0, o);
                                }
                            }
                            return Err(f);
                        },
                    }
                } else {
                    s
                };
                let ghost text = x@;
                list.push(x);
                assert(texts(list@) =~= before.push(text));
            }
        }
        k = k + 1;
    }
    Ok(join(&list, "\n"))
}

/// Makes one script of a library.
pub fn compile_js_lib<E: Transport>(client: &HttpClient, js_lib: &str, host: &mut Host<E>) -> (r: Result<
    String,
    HttpClientError,
>)
    ensures
        extends(old(host).log(), final(host).log()),
        forall|o: Oracle| #[trigger]
            agrees(final(host).log(), o) ==> lib_compiled(client.model(), js_lib@, old(host).world(), o) == (
                text_result(r),
                final(host).world(),
            ),
{
    broadcast use group_log;
    broadcast use lemma_object_model;

    let t = trim(js_lib);
    if starts_with(t.as_str(), "{") {
        if let Some(Json::Object(m)) = parse_json(t.as_str()) {
            assert(json_of(t@) == Some(Json::Object(m).model()));
            assert(member_models(m@).len() == m.len());
            return fetch_lib(client, &m, host);
        }
    }
    Ok(t)
}

} // verus!
