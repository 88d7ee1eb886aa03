//! What is asked of a source, checked, and the errors that answer it.

use crate::crawler::response::{FaultV, FetchError, HttpResponse, HttpV};
use crate::crawler::session::{opt_session, ExecuteSession, SessionV};
use crate::ext::json::{
    copy_json, integer_text, json_integer, json_read, lemma_object_model, member_models, member_of, opt_json, put,
    read_json, Json, JsonV,
};
use crate::model::book_source::BookSource;
use crate::util::chars::{concat, copy, decimal, decimal_of, is_empty_text, opt_text, same, trim, trim_of, within};
use vstd::prelude::*;
use vstd::string::*;
use vstd::utf8::encode_utf8;

verus! {

/// The limits of a request, as they are asked for; zero asks for the usual one.
#[derive(Debug, Clone, Copy)]
pub struct ExecuteOptions {
    pub timeout_ms: u64,
    pub max_pages: usize,
    pub max_response_bytes: usize,
    pub debug: bool,
}

impl Default for ExecuteOptions {
    fn default() -> (r: ExecuteOptions)
        ensures
            r == (ExecuteOptions {
                timeout_ms: 15000,
                max_pages: 100,
                max_response_bytes: 8388608,
                debug: false,
            }),
    {
        ExecuteOptions { timeout_ms: 15000, max_pages: 100, max_response_bytes: 8388608, debug: false }
    }
}

/// The limits of a request.
#[derive(Debug, Clone, Copy)]
pub struct ValidatedOptions {
    pub timeout_ms: u64,
    pub max_pages: usize,
    pub max_response_bytes: usize,
    pub debug: bool,
}

impl ValidatedOptions {
    /// Whether the limits are within those of the library.
    pub open spec fn wf(self) -> bool {
        &&& 0 < self.timeout_ms <= 120000
        &&& 0 < self.max_pages <= 100
        &&& 0 < self.max_response_bytes <= 16777216
    }
}

/// Why a request failed.
#[derive(Debug)]
pub struct ExecuteError {
    pub kind: String,
    pub message: String,
    pub status: Option<u16>,
    pub url: Option<String>,
    pub auth: Option<Json>,
}

pub struct ErrorV {
    pub kind: Seq<char>,
    pub message: Seq<char>,
    pub status: Option<u16>,
    pub url: Option<Seq<char>>,
    pub auth: Option<JsonV>,
}

impl ExecuteError {
    pub open spec fn model(self) -> ErrorV {
        ErrorV {
            kind: self.kind@,
            message: self.message@,
            status: self.status,
            url: opt_text(self.url),
            auth: opt_json(self.auth),
        }
    }
}

/// An error of a kind, with nothing but a message.
pub open spec fn plain_error(kind: Seq<char>, message: Seq<char>) -> ErrorV {
    ErrorV { kind, message, status: None, url: None, auth: None }
}

pub open spec fn invalid_request(message: Seq<char>) -> ErrorV {
    plain_error("invalid_request"@, message)
}

pub open spec fn invalid_source(message: Seq<char>) -> ErrorV {
    plain_error("invalid_source"@, message)
}

pub fn make_error(kind: &str, message: String) -> (r: ExecuteError)
    ensures
        r.model() == plain_error(kind@, message@),
{
    ExecuteError { kind: copy(kind), message, status: None, url: None, auth: None }
}

/// What an error says, by name; what it does not say is left out.
pub open spec fn error_members(e: ErrorV) -> Seq<(Seq<char>, JsonV)> {
    let m = seq![("kind"@, JsonV::Text(e.kind)), ("message"@, JsonV::Text(e.message))];
    let s = match e.status {
        Some(n) => m.push(("status"@, JsonV::Number(integer_text(n as int)))),
        None => m,
    };
    let u = match e.url {
        Some(t) => s.push(("url"@, JsonV::Text(t))),
        None => s,
    };
    match e.auth {
        Some(a) => u.push(("auth"@, a)),
        None => u,
    }
}

/// The answer to a request that failed.
pub open spec fn error_json(e: ErrorV) -> JsonV {
    JsonV::Object(seq![("ok"@, JsonV::Bool(false)), ("error"@, JsonV::Object(error_members(e)))])
}

impl ExecuteError {
    /// The answer to a request that failed.
    pub fn into_json(self) -> (r: Json)
        ensures
            r.model() == error_json(self.model()),
    {
        broadcast use lemma_object_model;

        let ghost e = self.model();
        let mut m: Vec<(String, Json)> = Vec::new();
        assert(member_models(m@) =~= seq![]);
        put(&mut m, "kind", Json::Text(self.kind));
        put(&mut m, "message", Json::Text(self.message));
        assert(member_models(m@) =~= seq![("kind"@, JsonV::Text(e.kind)), ("message"@, JsonV::Text(e.message))]);
        if let Some(n) = self.status {
            put(&mut m, "status", Json::Number(json_integer(n as i128)));
        }
        if let Some(t) = self.url {
            put(&mut m, "url", Json::Text(t));
        }
        if let Some(a) = self.auth {
            put(&mut m, "auth", a);
        }
        let mut r: Vec<(String, Json)> = Vec::new();
        assert(member_models(r@) =~= seq![]);
        put(&mut r, "ok", Json::Bool(false));
        put(&mut r, "error", Json::Object(m));
        assert(member_models(r@) =~= seq![
            ("ok"@, JsonV::Bool(false)),
            ("error"@, JsonV::Object(error_members(e))),
        ]);
        Json::Object(r)
    }
}

/// How a challenge is to be met.
pub open spec fn auth_members(mode: Seq<char>, login_url: Option<Seq<char>>, action_url: Option<Seq<char>>) -> Seq<
    (Seq<char>, JsonV),
> {
    let m = seq![("mode"@, JsonV::Text(mode))];
    let l = match login_url {
        Some(t) => m.push(("loginUrl"@, JsonV::Text(t))),
        None => m,
    };
    match action_url {
        Some(t) => l.push(("actionUrl"@, JsonV::Text(t))),
        None => l,
    }
}

/// The error that a failed fetch is reported as.
pub open spec fn error_of_fault(f: FaultV) -> ErrorV {
    match f {
        FaultV::InvalidUrl(m) => plain_error("url_rule"@, m),
        FaultV::Network(m) => plain_error("network"@, m),
        FaultV::Timeout { url, message } => ErrorV {
            kind: "timeout"@,
            message,
            status: None,
            url,
            auth: None,
        },
        FaultV::HttpStatus { status, url } => ErrorV {
            kind: "http_status"@,
            message: "HTTP "@ + decimal_of(status as int),
            status: Some(status),
            url: Some(url),
            auth: None,
        },
        FaultV::ResponseTooLarge { url, limit } => ErrorV {
            kind: "response_too_large"@,
            message: "response exceeds "@ + decimal_of(limit as int) + " bytes"@,
            status: None,
            url: Some(url),
            auth: None,
        },
        FaultV::AuthChallenge { kind, message, status, url, mode, login_url, action_url } => ErrorV {
            kind,
            message,
            status,
            url: Some(url),
            auth: Some(JsonV::Object(auth_members(mode, login_url, action_url))),
        },
    }
}

pub fn auth_value(mode: String, login_url: Option<String>, action_url: Option<String>) -> (r: Json)
    ensures
        r.model() == JsonV::Object(auth_members(mode@, opt_text(login_url), opt_text(action_url))),
{
    broadcast use lemma_object_model;

    let ghost first = mode@;
    let mut m: Vec<(String, Json)> = Vec::new();
    assert(member_models(m@) =~= seq![]);
    put(&mut m, "mode", Json::Text(mode));
    assert(member_models(m@) =~= seq![("mode"@, JsonV::Text(first))]);
    if let Some(t) = login_url {
        put(&mut m, "loginUrl", Json::Text(t));
    }
    if let Some(t) = action_url {
        put(&mut m, "actionUrl", Json::Text(t));
    }
    Json::Object(m)
}

/// Reports a failed fetch.
pub fn report_fault(error: FetchError) -> (r: ExecuteError)
    ensures
        r.model() == error_of_fault(error.model()),
{
    match error {
        FetchError::InvalidUrl(m) => make_error("url_rule", m),
        FetchError::Network(m) => make_error("network", m),
        FetchError::Timeout { url, message } => ExecuteError {
            kind: "timeout".to_owned(),
            message,
            status: None,
            url,
            auth: None,
        },
        FetchError::HttpStatus { status, url } => ExecuteError {
            kind: "http_status".to_owned(),
            message: concat("HTTP ", decimal(status as u64).as_str()),
            status: Some(status),
            url: Some(url),
            auth: None,
        },
        FetchError::ResponseTooLarge { url, limit } => ExecuteError {
            kind: "response_too_large".to_owned(),
            message: crate::util::chars::concat3("response exceeds ", decimal(limit as u64).as_str(), " bytes"),
            status: None,
            url: Some(url),
            auth: None,
        },
        FetchError::AuthChallenge { kind, message, status, url, mode, login_url, action_url } => ExecuteError {
            kind,
            message,
            status,
            url: Some(url),
            auth: Some(auth_value(mode, login_url, action_url)),
        },
    }
}

/// A source as it was read: the JSON, then the source that it describes.
pub open spec fn read_source(raw: Seq<char>, described: Result<BookSource, Seq<char>>) -> Result<BookSource, ErrorV> {
    match json_read(raw) {
        Err(e) => Err(invalid_source("invalid source JSON: "@ + e)),
        Ok(_) => match described {
            Err(e) => Err(invalid_source("invalid source: "@ + e)),
            Ok(s) => if trim_of(s.book_source_url@).len() == 0 {
                Err(invalid_source("bookSourceUrl is required"@))
            } else {
                Ok(s)
            },
        },
    }
}

pub open spec fn described_source(r: Result<BookSource, String>) -> Result<BookSource, Seq<char>> {
    match r {
        Ok(s) => Ok(s),
        Err(e) => Err(e@),
    }
}

/// Checks a source: `described` is what its JSON was decoded to.
pub fn parse_source(raw: &str, described: Result<BookSource, String>) -> (r: Result<BookSource, ExecuteError>)
    ensures
        match r {
            Ok(s) => read_source(raw@, described_source(described)) == Ok::<BookSource, ErrorV>(s),
            Err(e) => read_source(raw@, described_source(described)) == Err::<BookSource, ErrorV>(e.model()),
        },
{
    if let Err(e) = read_json(raw) {
        return Err(make_error("invalid_source", concat("invalid source JSON: ", e.as_str())));
    }
    match described {
        Err(e) => Err(make_error("invalid_source", concat("invalid source: ", e.as_str()))),
        Ok(s) => {
            if is_empty_text(trim(s.book_source_url.as_str()).as_str()) {
                return Err(make_error("invalid_source", "bookSourceUrl is required".to_owned()));
            }
            Ok(s)
        },
    }
}

/// The limits that are meant: the usual ones in place of zeros.
pub open spec fn meant_options(q: ExecuteOptions) -> ValidatedOptions {
    ValidatedOptions {
        timeout_ms: if q.timeout_ms == 0 {
            15000
        } else {
            q.timeout_ms
        },
        max_pages: if q.max_pages == 0 {
            100
        } else {
            q.max_pages
        },
        max_response_bytes: if q.max_response_bytes == 0 {
            8388608
        } else {
            q.max_response_bytes
        },
        debug: q.debug,
    }
}

/// The limits of a request, or the first that is over what the library allows.
pub open spec fn checked_options(q: ExecuteOptions) -> Result<ValidatedOptions, ErrorV> {
    let m = meant_options(q);
    if m.timeout_ms > 120000 {
        Err(invalid_request("timeoutMs must be at most 120000"@))
    } else if m.max_pages > 100 {
        Err(invalid_request("maxPages must be at most 100"@))
    } else if m.max_response_bytes > 16777216 {
        Err(invalid_request("maxResponseBytes must be at most 16777216"@))
    } else {
        Ok(m)
    }
}

pub fn validate_options(q: ExecuteOptions) -> (r: Result<ValidatedOptions, ExecuteError>)
    ensures
        match r {
            Ok(m) => checked_options(q) == Ok::<ValidatedOptions, ErrorV>(m) && m.wf(),
            Err(e) => checked_options(q) == Err::<ValidatedOptions, ErrorV>(e.model()),
        },
{
    let timeout_ms: u64 = if q.timeout_ms == 0 {
        15000
    } else {
        q.timeout_ms
    };
    let max_pages: usize = if q.max_pages == 0 {
        100
    } else {
        q.max_pages
    };
    let max_response_bytes: usize = if q.max_response_bytes == 0 {
        8388608
    } else {
        q.max_response_bytes
    };
    if timeout_ms > 120000 {
        return Err(make_error("invalid_request", "timeoutMs must be at most 120000".to_owned()));
    }
    if max_pages > 100 {
        return Err(make_error("invalid_request", "maxPages must be at most 100".to_owned()));
    }
    if max_response_bytes > 16777216 {
        return Err(make_error("invalid_request", "maxResponseBytes must be at most 16777216".to_owned()));
    }
    Ok(ValidatedOptions { timeout_ms, max_pages, max_response_bytes, debug: q.debug })
}

/// A request that can be carried out.
pub struct Request {
    pub operation: String,
    pub params: Json,
    pub options: ValidatedOptions,
    pub session: Option<ExecuteSession>,
}

pub struct AskedV {
    pub operation: Seq<char>,
    pub params: JsonV,
    pub options: ValidatedOptions,
    pub session: Option<SessionV>,
}

impl Request {
    pub open spec fn model(self) -> AskedV {
        AskedV {
            operation: self.operation@,
            params: self.params.model(),
            options: self.options,
            session: opt_session(self.session),
        }
    }
}

pub open spec fn is_operation(s: Seq<char>) -> bool {
    s == "search"@ || s == "explore"@ || s == "info"@ || s == "toc"@ || s == "content"@ || s == "login_ui"@ || s == "login"@
}

pub fn known_operation(s: &str) -> (r: bool)
    ensures
        r == is_operation(s@),
{
    same(s, "search") || same(s, "explore") || same(s, "info") || same(s, "toc") || same(s, "content") || same(
        s,
        "login_ui",
    ) || same(s, "login")
}

/// The text of a value that is a string with something in it.
pub open spec fn filled_text(v: Option<JsonV>) -> Option<Seq<char>> {
    match v {
        Some(JsonV::Text(t)) => if trim_of(t).len() > 0 {
            Some(trim_of(t))
        } else {
            None
        },
        _ => None,
    }
}

pub fn text_member(v: &Json, key: &str) -> (r: Option<String>)
    ensures
        opt_text(r) == filled_text(member_of(v.model(), key@)),
{
    match v.get(key) {
        Some(x) => match x.as_text() {
            Some(t) => {
                let s = trim(t);
                if is_empty_text(s.as_str()) {
                    None
                } else {
                    Some(s)
                }
            },
            None => None,
        },
        None => None,
    }
}

/// What a part of the request was decoded to: its limits, or what is wrong with them.
pub open spec fn decoded_options(r: Result<ExecuteOptions, String>) -> Result<ExecuteOptions, Seq<char>> {
    match r {
        Ok(x) => Ok(x),
        Err(e) => Err(e@),
    }
}

pub open spec fn decoded_session(r: Result<Option<ExecuteSession>, String>) -> Result<Option<SessionV>, Seq<char>> {
    match r {
        Ok(x) => Ok(opt_session(x)),
        Err(e) => Err(e@),
    }
}

/// The parameters of a request; none are an empty object.
pub open spec fn params_of(v: JsonV) -> JsonV {
    match member_of(v, "params"@) {
        Some(p) => p,
        None => JsonV::Object(seq![]),
    }
}

/// A request as it was read, or the first thing that is wrong with it.
pub open spec fn read_request(
    raw: Seq<char>,
    options: Result<ExecuteOptions, Seq<char>>,
    session: Result<Option<SessionV>, Seq<char>>,
) -> Result<AskedV, ErrorV> {
    match json_read(raw) {
        Err(e) => Err(invalid_request("invalid request JSON: "@ + e)),
        Ok(v) => request_in(v, options, session),
    }
}

/// The request that a value describes, or the first thing that is wrong with it.
pub open spec fn request_in(
    v: JsonV,
    options: Result<ExecuteOptions, Seq<char>>,
    session: Result<Option<SessionV>, Seq<char>>,
) -> Result<AskedV, ErrorV> {
    let op = filled_text(member_of(v, "op"@));
    if !(v is Object) {
        Err(invalid_request("request must be a JSON object"@))
    } else if member_of(v, "api"@) != Some(JsonV::Number("2"@)) {
        Err(invalid_request("api must be 2"@))
    } else if op is None {
        Err(invalid_request("op is required"@))
    } else if !is_operation(op->0) {
        Err(invalid_request("unsupported op: "@ + op->0))
    } else if !(params_of(v) is Object) {
        Err(invalid_request("params must be a JSON object"@))
    } else {
        match options {
            Err(e) => Err(invalid_request("invalid options: "@ + e)),
            Ok(q) => match checked_options(q) {
                Err(e) => Err(e),
                Ok(limits) => match session {
                    Err(e) => Err(invalid_request("invalid session: "@ + e)),
                    Ok(s) => Ok(
                        AskedV { operation: op->0, params: params_of(v), options: limits, session: s },
                    ),
                },
            },
        }
    }
}

pub fn is_api_two(v: &Json) -> (r: bool)
    ensures
        r == (member_of(v.model(), "api"@) == Some(JsonV::Number("2"@))),
{
    match v.get("api") {
        Some(Json::Number(n)) => same(n.to_text().as_str(), "2"),
        Some(_) => false,
        None => false,
    }
}

/// Checks a request. Its limits and its session come decoded.
pub fn parse_request(
    raw: &str,
    options: Result<ExecuteOptions, String>,
    session: Result<Option<ExecuteSession>, String>,
) -> (r: Result<Request, ExecuteError>)
    ensures
        match r {
            Ok(q) => read_request(raw@, decoded_options(options), decoded_session(session)) == Ok::<AskedV, ErrorV>(
                q.model(),
            ) && q.options.wf() && is_operation(q.model().operation),
            Err(e) => read_request(raw@, decoded_options(options), decoded_session(session)) == Err::<AskedV, ErrorV>(
                e.model(),
            ),
        },
{
    match read_json(raw) {
        Ok(v) => request_of_value(v, options, session),
        Err(e) => Err(make_error("invalid_request", concat("invalid request JSON: ", e.as_str()))),
    }
}

/// Takes the request out of a value.
pub fn request_of_value(
    v: Json,
    options: Result<ExecuteOptions, String>,
    session: Result<Option<ExecuteSession>, String>,
) -> (r: Result<Request, ExecuteError>)
    ensures
        match r {
            Ok(q) => request_in(v.model(), decoded_options(options), decoded_session(session)) == Ok::<
                AskedV,
                ErrorV,
            >(q.model()) && q.options.wf() && is_operation(q.model().operation),
            Err(e) => request_in(v.model(), decoded_options(options), decoded_session(session)) == Err::<
                AskedV,
                ErrorV,
            >(e.model()),
        },
{
    broadcast use lemma_object_model;

    if let Json::Object(_) = &v {
    } else {
        return Err(make_error("invalid_request", "request must be a JSON object".to_owned()));
    }
    if !is_api_two(&v) {
        return Err(make_error("invalid_request", "api must be 2".to_owned()));
    }
    let operation = match text_member(&v, "op") {
        Some(t) => t,
        None => {
            return Err(make_error("invalid_request", "op is required".to_owned()));
        },
    };
    if !known_operation(operation.as_str()) {
        return Err(make_error("invalid_request", concat("unsupported op: ", operation.as_str())));
    }
    let params = match v.get("params") {
        Some(p) => copy_json(p),
        None => {
            let none: Vec<(String, Json)> = Vec::new();
            assert(member_models(none@) =~= seq![]);
            Json::Object(none)
        },
    };
    assert(params.model() == params_of(v.model()));
    if let Json::Object(_) = &params {
    } else {
        return Err(make_error("invalid_request", "params must be a JSON object".to_owned()));
    }
    let q = match options {
        Ok(q) => q,
        Err(e) => {
            return Err(make_error("invalid_request", concat("invalid options: ", e.as_str())));
        },
    };
    let limits = match validate_options(q) {
        Ok(m) => m,
        Err(e) => {
            return Err(e);
        },
    };
    match session {
        Ok(s) => Ok(Request { operation, params, options: limits, session: s }),
        Err(e) => Err(make_error("invalid_request", concat("invalid session: ", e.as_str()))),
    }
}

/// A parameter that must be there.
pub open spec fn needed_text(params: JsonV, key: Seq<char>) -> Result<Seq<char>, ErrorV> {
    match filled_text(member_of(params, key)) {
        Some(t) => Ok(t),
        None => Err(invalid_request("params."@ + key + " is required"@)),
    }
}

pub open spec fn text_or_error(r: Result<String, ExecuteError>) -> Result<Seq<char>, ErrorV> {
    match r {
        Ok(t) => Ok(t@),
        Err(e) => Err(e.model()),
    }
}

pub fn required_string(params: &Json, key: &str) -> (r: Result<String, ExecuteError>)
    ensures
        text_or_error(r) == needed_text(params.model(), key@),
{
    match text_member(params, key) {
        Some(t) => Ok(t),
        None => Err(make_error("invalid_request", crate::util::chars::concat3("params.", key, " is required"))),
    }
}

/// The integer that a number is written as, if it is one that fits in 64 bits.
pub open spec fn whole_number(v: Option<JsonV>) -> Option<int> {
    match v {
        Some(JsonV::Number(t)) => within(crate::util::chars::signed_of(t), i64::MIN as int, i64::MAX as int),
        _ => None,
    }
}

/// The page of a request, the first where none is given.
pub open spec fn page_of(params: JsonV) -> Result<i32, ErrorV> {
    match whole_number(member_of(params, "page"@)) {
        None => Ok(1),
        Some(n) => if 1 <= n <= i32::MAX {
            Ok(n as i32)
        } else {
            Err(invalid_request("params.page must be a positive integer"@))
        },
    }
}

pub fn find_whole_number(v: &Json, key: &str) -> (r: Option<i64>)
    ensures
        match r {
            Some(n) => whole_number(member_of(v.model(), key@)) == Some(n as int),
            None => whole_number(member_of(v.model(), key@)) is None,
        },
{
    match v.get(key) {
        Some(Json::Number(n)) => crate::util::chars::parse_i64(n.to_text().as_str()),
        Some(_) => None,
        None => None,
    }
}

pub fn optional_page(params: &Json) -> (r: Result<i32, ExecuteError>)
    ensures
        match r {
            Ok(n) => page_of(params.model()) == Ok::<i32, ErrorV>(n),
            Err(e) => page_of(params.model()) == Err::<i32, ErrorV>(e.model()),
        },
{
    match find_whole_number(params, "page") {
        None => Ok(1),
        Some(n) => {
            if 1 <= n && n <= 2147483647 {
                Ok(n as i32)
            } else {
                Err(make_error("invalid_request", "params.page must be a positive integer".to_owned()))
            }
        },
    }
}

/// How an answer came about.
pub open spec fn meta_members(pages: int, truncated: bool, response: HttpV, debug: bool) -> Seq<(Seq<char>, JsonV)> {
    let m = seq![
        ("pages"@, JsonV::Number(integer_text(pages))),
        ("truncated"@, JsonV::Bool(truncated)),
        ("finalUrl"@, JsonV::Text(response.url)),
        ("status"@, JsonV::Number(integer_text(response.status as int))),
    ];
    if debug {
        m.push(
            (
                "debug"@,
                JsonV::Object(
                    seq![("responseBytes"@, JsonV::Number(integer_text(encode_utf8(response.body).len() as int)))],
                ),
            ),
        )
    } else {
        m
    }
}

/// The answer to a request that was carried out.
pub open spec fn success_json(data: JsonV, pages: int, truncated: bool, response: HttpV, debug: bool) -> JsonV {
    JsonV::Object(
        seq![
            ("ok"@, JsonV::Bool(true)),
            ("data"@, data),
            ("meta"@, JsonV::Object(meta_members(pages, truncated, response, debug))),
        ],
    )
}

pub fn answer_with(data: Json, meta: Vec<(String, Json)>) -> (r: Json)
    ensures
        r.model() == JsonV::Object(
            seq![
                ("ok"@, JsonV::Bool(true)),
                ("data"@, data.model()),
                ("meta"@, JsonV::Object(member_models(meta@))),
            ],
        ),
{
    broadcast use lemma_object_model;

    let ghost d = data.model();
    let ghost m = JsonV::Object(member_models(meta@));
    let mut r: Vec<(String, Json)> = Vec::new();
    assert(member_models(r@) =~= seq![]);
    put(&mut r, "ok", Json::Bool(true));
    put(&mut r, "data", data);
    put(&mut r, "meta", Json::Object(meta));
    assert(member_models(r@) =~= seq![("ok"@, JsonV::Bool(true)), ("data"@, d), ("meta"@, m)]);
    Json::Object(r)
}

pub fn success(data: Json, pages: usize, truncated: bool, response: &HttpResponse, options: &ValidatedOptions) -> (r: Json)
    ensures
        r.model() == success_json(data.model(), pages as int, truncated, response.model(), options.debug),
{
    broadcast use lemma_object_model;

    let mut m: Vec<(String, Json)> = Vec::new();
    assert(member_models(m@) =~= seq![]);
    put(&mut m, "pages", Json::Number(json_integer(pages as i128)));
    put(&mut m, "truncated", Json::Bool(truncated));
    put(&mut m, "finalUrl", Json::Text(response.url.clone()));
    put(&mut m, "status", Json::Number(json_integer(response.status as i128)));
    assert(member_models(m@) =~= seq![
        ("pages"@, JsonV::Number(integer_text(pages as int))),
        ("truncated"@, JsonV::Bool(truncated)),
        ("finalUrl"@, JsonV::Text(response.url@)),
        ("status"@, JsonV::Number(integer_text(response.status as int))),
    ]);
    if options.debug {
        let mut d: Vec<(String, Json)> = Vec::new();
        assert(member_models(d@) =~= seq![]);
        let bytes: usize = response.body.as_str().as_bytes().len();
        put(&mut d, "responseBytes", Json::Number(json_integer(bytes as i128)));
        assert(member_models(d@) =~= seq![("responseBytes"@, JsonV::Number(integer_text(bytes as int)))]);
        put(&mut m, "debug", Json::Object(d));
    }
    answer_with(data, m)
}

/// The answer to a request that needed no site.
pub open spec fn local_json(data: JsonV) -> JsonV {
    JsonV::Object(
        seq![
            ("ok"@, JsonV::Bool(true)),
            ("data"@, data),
            (
                "meta"@,
                JsonV::Object(
                    seq![("pages"@, JsonV::Number(integer_text(0))), ("truncated"@, JsonV::Bool(false))],
                ),
            ),
        ],
    )
}

pub fn success_without_http(data: Json) -> (r: Json)
    ensures
        r.model() == local_json(data.model()),
{
    let mut m: Vec<(String, Json)> = Vec::new();
    assert(member_models(m@) =~= seq![]);
    put(&mut m, "pages", Json::Number(json_integer(0)));
    put(&mut m, "truncated", Json::Bool(false));
    assert(member_models(m@) =~= seq![
        ("pages"@, JsonV::Number(integer_text(0))),
        ("truncated"@, JsonV::Bool(false)),
    ]);
    answer_with(data, m)
}

} // verus!
