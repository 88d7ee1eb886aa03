//! The rules of sources with their scripts: the library on top of a script engine
//! and a site that are both in this process.

use reader_parser::crawler::fetch::{HttpClient, HttpSession};
use reader_parser::crawler::http::HttpClientError;
use reader_parser::crawler::response::{format_response_body, FetchError, RawResponse};
use reader_parser::crawler::session::{ActiveSession, ExecuteSession};
use reader_parser::crawler::sessions::Sessions;
use reader_parser::crawler::url_rule::{analyze_url, Method, RequestSpec};
use reader_parser::eval::{debug_parse, reader_eval, EvalExtra};
use reader_parser::executor::request::ExecuteOptions;
use reader_parser::executor::run::{execute, Decoded};
use reader_parser::ext::dom::parse_document;
use reader_parser::ext::json::{json_to_text, read_json, Json};
use reader_parser::model::book_source::BookSource;
use reader_parser::model::replace_rule::ReplaceRule;
use reader_parser::model::rule::{BookInfoRule, ContentRule, SearchRule, TocRule};
use reader_parser::parser::context::{RuleVariableContext, Variables};
use reader_parser::parser::field::{eval_field, interpolate_templates, Scope};
use reader_parser::parser::java_codec;
use reader_parser::parser::java_net;
use reader_parser::parser::java_rules;
use reader_parser::parser::java_state::{java_variable, login_header_value, session_value_text, set_source_variable, ScriptCache};
use reader_parser::parser::java_time::{has_short_fraction, java_time_format_utc};
use reader_parser::parser::js::{eval_js, eval_js_search_with_source, eval_js_template, eval_js_url_template, eval_js_with_bindings};
use reader_parser::parser::js_run::{call_values, saved_names, scoped_script, script_text, ScriptValue};
use reader_parser::parser::js_shims;
use reader_parser::parser::markup::format_keep_img;
use reader_parser::parser::rule_engine::{
    parse_book_info_html, parse_book_info_json, parse_book_info_xpath, parse_chapter_list_xpath, RuleEngine,
};
use reader_parser::parser::script::{Host, ScriptCall, ScriptEngine, Transport, Wire};
use reader_parser::parser::source_rule::{
    apply_legado_regex, book_url_pattern_matches, capture_rule_values, classify_rule_mode, extract_put_entries, is_truthy,
    regex_capture_rows, ParseMode,
};
use reader_parser::util::text::{apply_regex_replace, strip_whitespace};
use rquickjs::context::EvalOptions;
use rquickjs::function::{Func, Opt};
use rquickjs::{CatchResultExt, Coerced, Context, Ctx, FromJs, Object, Runtime, Value};
use std::cell::RefCell;
use std::collections::HashMap;
use std::rc::Rc;
use std::sync::atomic::{AtomicU64, Ordering};
use std::sync::Arc;
use std::time::{Instant, SystemTime, UNIX_EPOCH};
use uuid::Uuid;

type Site = Box<dyn FnMut(&Wire) -> Result<RawResponse, HttpClientError>>;

/// How long a script may run, in seconds.
const SCRIPT_SECONDS: u64 = 4;

/// What all scripts of an engine share.
struct Shared {
    /// The sessions that the running script sees.
    sessions: RefCell<Sessions>,
    /// The client that scripts send their requests by.
    client: RefCell<HttpClient>,
    /// The source by whose rules `java.connect` builds requests, where one is
    /// bound; `execute` binds its client alone.
    source: RefCell<Option<BookSource>>,
    /// The site that requests go to.
    site: RefCell<Site>,
    values: RefCell<Variables>,
    cache: RefCell<ScriptCache>,
    libraries: RefCell<HashMap<String, String>>,
    device_id: String,
    started: Instant,
}

impl Shared {
    fn millis(&self) -> u64 {
        self.started.elapsed().as_millis() as u64
    }

    fn in_session<T>(&self, f: impl FnOnce(&mut ActiveSession) -> T) -> Option<T> {
        let mut sessions = self.sessions.borrow_mut();
        let mut session = sessions.take_active()?;
        let result = f(&mut session);
        sessions.put_active(session);
        Some(result)
    }

    /// Runs with the given sessions as those that scripts see.
    fn lent<T>(&self, sessions: &mut Sessions, f: impl FnOnce() -> T) -> T {
        std::mem::swap(&mut *self.sessions.borrow_mut(), sessions);
        let result = f();
        std::mem::swap(&mut *self.sessions.borrow_mut(), sessions);
        result
    }

    /// Runs with a host that has the sessions which the running script sees.
    fn hosted<E, T>(&self, engine: E, f: impl FnOnce(&mut Host<E>) -> T) -> T {
        let mut host = Host::with_sessions(engine, self.sessions.replace(Sessions::new()));
        let result = f(&mut host);
        self.sessions.replace(host.into_parts().1);
        result
    }

    fn send(&self, wire: &Wire) -> Result<RawResponse, HttpClientError> {
        (self.site.borrow_mut())(wire)
    }

    fn client(&self) -> HttpClient {
        let client = self.client.borrow();
        HttpClient { cookies: client.cookies, timeout_ms: client.timeout_ms, proxy: client.proxy.clone() }
    }
}

/// A client without a time limit, for scripts outside of a session.
fn standalone_client() -> HttpClient {
    HttpClient { cookies: true, timeout_ms: 0, proxy: None }
}

/// The engine of one thread.
struct Engine {
    shared: Rc<Shared>,
    context: Context,
    deadline: Arc<AtomicU64>,
    _runtime: Runtime,
}

fn seconds_now() -> u64 {
    SystemTime::now().duration_since(UNIX_EPOCH).map(|d| d.as_secs()).unwrap_or(0)
}

impl Engine {
    fn new() -> Result<Engine, String> {
        let runtime = Runtime::new().map_err(|e| e.to_string())?;
        runtime.set_max_stack_size(512 * 1024);
        runtime.set_memory_limit(30 * 1024 * 1024);
        let deadline = Arc::new(AtomicU64::new(0));
        let started = deadline.clone();
        runtime.set_interrupt_handler(Some(Box::new(move || {
            let start = started.load(Ordering::Relaxed);
            start != 0 && seconds_now() > start + SCRIPT_SECONDS
        })));
        let context = Context::full(&runtime).map_err(|e| e.to_string())?;
        let shared = Rc::new(Shared {
            sessions: RefCell::new(Sessions::new()),
            client: RefCell::new(standalone_client()),
            source: RefCell::new(None),
            site: RefCell::new(Box::new(|wire: &Wire| {
                Err(HttpClientError::Network(format!("no site for {}", wire.url)))
            })),
            values: RefCell::new(Variables::new()),
            cache: RefCell::new(ScriptCache::new()),
            libraries: RefCell::new(HashMap::new()),
            device_id: Uuid::new_v4().to_string(),
            started: Instant::now(),
        });
        Ok(Engine { shared, context, deadline, _runtime: runtime })
    }

    fn shared(&self) -> Rc<Shared> {
        self.shared.clone()
    }

    /// The library of a call as one script.
    fn library_script(&self, lib: &Option<String>) -> Result<String, String> {
        let Some(lib) = lib.as_deref().filter(|lib| !lib.trim().is_empty()) else {
            return Ok(String::new());
        };
        let key = java_codec::md5_encode(lib);
        if let Some(script) = self.shared.libraries.borrow().get(&key) {
            return Ok(script.clone());
        }
        let client = self.shared.client();
        let sending = Sending { shared: self.shared.clone() };
        let script = self
            .shared
            .hosted(sending, |host| java_net::compile_js_lib(&client, lib, host))
            .map_err(|e| e.to_text())?;
        self.shared.libraries.borrow_mut().insert(key, script.clone());
        Ok(script)
    }
}

impl ScriptEngine for Engine {
    fn eval(&mut self, call: &ScriptCall, sessions: &mut Sessions) -> Result<String, String> {
        self.shared.lent(sessions, || {
            let library = self.library_script(&call.js_lib)?;
            self.deadline.store(seconds_now(), Ordering::Relaxed);
            let result = self.context.with(|ctx| {
                install(&ctx, &self.shared, call, &library)?;
                run_call(&ctx, call)
            });
            self.deadline.store(0, Ordering::Relaxed);
            result
        })
    }
}

impl Transport for Engine {
    fn send(&mut self, wire: &Wire) -> Result<RawResponse, HttpClientError> {
        self.shared.send(wire)
    }
}

/// The transport of requests that scripts send.
struct Sending {
    shared: Rc<Shared>,
}

impl Transport for Sending {
    fn send(&mut self, wire: &Wire) -> Result<RawResponse, HttpClientError> {
        self.shared.send(wire)
    }
}

/// The engine of rules that a running script evaluates: they run in its context.
struct Nested<'js> {
    shared: Rc<Shared>,
    ctx: Ctx<'js>,
}

impl ScriptEngine for Nested<'_> {
    fn eval(&mut self, call: &ScriptCall, sessions: &mut Sessions) -> Result<String, String> {
        self.shared.lent(sessions, || eval_nested(&self.ctx, call))
    }
}

impl Transport for Nested<'_> {
    fn send(&mut self, wire: &Wire) -> Result<RawResponse, HttpClientError> {
        self.shared.send(wire)
    }
}

fn caught<'js, T>(ctx: &Ctx<'js>, result: rquickjs::Result<T>) -> Result<T, String> {
    result.catch(ctx).map_err(|e| format!("JS Exception: {e:?}"))
}

/// Runs a script in sloppy mode, so that rules may set variables without
/// declaring them.
fn run<'js>(ctx: &Ctx<'js>, script: &str) -> Result<Value<'js>, String> {
    let mut options = EvalOptions::default();
    options.global = true;
    options.strict = false;
    caught(ctx, ctx.eval_with_options(script, options))
}

fn shown<'js>(ctx: &Ctx<'js>, value: Value<'js>, template: bool) -> Result<ScriptValue, String> {
    if value.is_null() || value.is_undefined() {
        return Ok(ScriptValue::Nothing);
    }
    if let Some(text) = value.clone().into_string() {
        return Ok(ScriptValue::Text(text.to_string().unwrap_or_default()));
    }
    if template {
        let text: Coerced<String> = caught(ctx, Coerced::from_js(ctx, value))?;
        return Ok(ScriptValue::Other { json: None, string: text.0 });
    }
    let json = caught(ctx, ctx.json_stringify(value))?.and_then(|text| text.to_string().ok());
    Ok(ScriptValue::Other { json, string: String::new() })
}

/// Runs the script of a call and gives its value as text.
fn run_call<'js>(ctx: &Ctx<'js>, call: &ScriptCall) -> Result<String, String> {
    let value = run(ctx, &scoped_script(&call.script))?;
    let value = shown(ctx, value, call.template)?;
    let left: Value<'js> = caught(ctx, ctx.globals().get("result"))?;
    let left = shown(ctx, left, false)?;
    Ok(script_text(value, left, call.template))
}

fn set_values<'js>(ctx: &Ctx<'js>, call: &ScriptCall, nested: bool) -> rquickjs::Result<()> {
    for (name, value) in call_values(call, nested) {
        ctx.globals().set(name, ctx.json_parse(json_to_text(&value))?)?;
    }
    Ok(())
}

/// Runs a script within a running one and puts back what it changed of the scope.
fn eval_nested<'js>(ctx: &Ctx<'js>, call: &ScriptCall) -> Result<String, String> {
    let globals = ctx.globals();
    let mut saved: Vec<(String, Option<Value<'js>>)> = Vec::new();
    for name in saved_names(call) {
        let value = if caught(ctx, globals.contains_key(name.as_str()))? {
            Some(caught(ctx, globals.get::<_, Value<'js>>(name.as_str()))?)
        } else {
            None
        };
        saved.push((name, value));
    }
    let result = caught(ctx, set_values(ctx, call, true)).and_then(|_| run_call(ctx, call));
    for (name, value) in saved.into_iter().rev() {
        let _ = match value {
            Some(value) => globals.set(name.as_str(), value),
            None => globals.remove(name.as_str()),
        };
    }
    result
}

/// Sets up everything that a script sees.
fn install<'js>(ctx: &Ctx<'js>, shared: &Rc<Shared>, call: &ScriptCall, library: &str) -> Result<(), String> {
    caught(ctx, install_session(ctx, shared, call))?;
    caught(ctx, install_java(ctx, shared, call))?;
    run(ctx, js_shims::RESPONSE_SHIM)?;
    caught(ctx, install_globals(ctx, shared))?;
    caught(ctx, set_values(ctx, call, false))?;
    run(ctx, js_shims::LOGIN_SHIM)?;
    run(ctx, js_shims::ELEMENT_SHIM)?;
    run(ctx, js_shims::JSOUP_SHIM)?;
    run(ctx, js_shims::PLATFORM_SHIM)?;
    if !library.trim().is_empty() {
        run(ctx, library)?;
    }
    run(ctx, js_shims::RESULT_SHIM)?;
    Ok(())
}

fn install_session<'js>(ctx: &Ctx<'js>, shared: &Rc<Shared>, call: &ScriptCall) -> rquickjs::Result<()> {
    let globals = ctx.globals();
    let source = Object::new(ctx.clone())?;
    let key = call.source_key.clone().unwrap_or_default();
    source.set("key", key.clone())?;
    source.set("getKey", Func::new(move || key.clone()))?;
    let s = shared.clone();
    source.set(
        "getVariable",
        Func::new(move |key: Opt<String>| -> String {
            let key = key.0.unwrap_or_default();
            session_value_text(s.in_session(|x| x.get_variable(&key)).flatten())
        }),
    )?;
    let s = shared.clone();
    source.set(
        "setVariable",
        Func::new(move |first: String, second: Opt<String>| -> String {
            s.in_session(|x| set_source_variable(x, &first, second.0.as_deref()))
                .unwrap_or_default()
        }),
    )?;
    let s = shared.clone();
    source.set(
        "getLoginHeader",
        Func::new(move || -> String { session_value_text(s.in_session(|x| x.get_login_header()).flatten()) }),
    )?;
    let s = shared.clone();
    source.set(
        "putLoginHeader",
        Func::new(move |value: String| -> String {
            s.in_session(|x| x.put_login_header(login_header_value(&value)));
            value
        }),
    )?;
    let s = shared.clone();
    source.set(
        "removeLoginHeader",
        Func::new(move || -> String {
            s.in_session(|x| x.remove_login_header());
            String::new()
        }),
    )?;
    globals.set("source", source)?;

    let cookie = Object::new(ctx.clone())?;
    for name in ["getCookie", "get"] {
        let s = shared.clone();
        cookie.set(
            name,
            Func::new(move |url: String| -> String {
                s.in_session(|x| x.get_cookie(&url)).flatten().unwrap_or_default()
            }),
        )?;
    }
    let s = shared.clone();
    cookie.set(
        "getKey",
        Func::new(move |url: String, key: String| -> String {
            s.in_session(|x| x.get_cookie_key(&url, &key)).flatten().unwrap_or_default()
        }),
    )?;
    for name in ["setCookie", "set"] {
        let s = shared.clone();
        cookie.set(
            name,
            Func::new(move |url: String, value: String| -> String {
                s.in_session(|x| x.set_cookie(&url, &value));
                value
            }),
        )?;
    }
    for name in ["removeCookie", "remove"] {
        let s = shared.clone();
        cookie.set(
            name,
            Func::new(move |url: String| -> String {
                s.in_session(|x| x.remove_cookie(&url));
                String::new()
            }),
        )?;
    }
    globals.set("cookie", cookie)?;

    let cache = Object::new(ctx.clone())?;
    let s = shared.clone();
    cache.set(
        "get",
        Func::new(move |key: String| -> Option<String> { s.cache.borrow_mut().get(&key, s.millis()) }),
    )?;
    let s = shared.clone();
    cache.set(
        "put",
        Func::new(move |key: String, value: String, seconds: Opt<i64>| -> bool {
            s.cache.borrow_mut().put(&key, value, seconds.0, s.millis());
            true
        }),
    )?;
    let s = shared.clone();
    cache.set(
        "delete",
        Func::new(move |key: String| -> bool { s.cache.borrow_mut().delete(&key) }),
    )?;
    globals.set("cache", cache)
}

fn install_globals<'js>(ctx: &Ctx<'js>, shared: &Rc<Shared>) -> rquickjs::Result<()> {
    let globals = ctx.globals();
    let s = shared.clone();
    globals.set("kv_get", Func::new(move |key: String| -> Option<String> { s.values.borrow().get(&key) }))?;
    let s = shared.clone();
    globals.set(
        "kv_put",
        Func::new(move |key: String, value: String| -> bool {
            s.values.borrow_mut().insert(key, value);
            true
        }),
    )?;
    globals.set(
        "regex_replace",
        Func::new(|input: String, pattern: String, replace: String| -> String {
            apply_regex_replace(&input, &pattern, &replace)
        }),
    )?;
    globals.set("strip_ws", Func::new(|input: String| -> String { strip_whitespace(&input) }))
}

fn install_java<'js>(ctx: &Ctx<'js>, shared: &Rc<Shared>, call: &ScriptCall) -> rquickjs::Result<()> {
    let java = Object::new(ctx.clone())?;
    install_network(&java, shared)?;
    install_codecs(&java)?;
    install_rules(&java, shared, call)?;

    java.set(
        "timeFormatUTC",
        Func::new(|timestamp: i64, format: String, offset_ms: i64| -> String {
            assert!(!has_short_fraction(&format), "the format cannot be written: {format}");
            java_time_format_utc(timestamp, &format, offset_ms)
        }),
    )?;
    let id = shared.device_id.clone();
    java.set("androidId", Func::new(move || -> String { id.clone() }))?;
    let id = shared.device_id.clone();
    java.set("deviceID", Func::new(move || -> String { id.clone() }))?;
    java.set("randomUUID", Func::new(|| -> String { Uuid::new_v4().to_string() }))?;
    java.set("uuid", Func::new(|| -> String { Uuid::new_v4().to_string() }))?;
    java.set("now", Func::new(|| -> i64 { chrono::Utc::now().timestamp_millis() }))?;
    let s = shared.clone();
    java.set(
        "put",
        Func::new(move |key: String, value: String| -> bool {
            s.values.borrow_mut().insert(key, value);
            true
        }),
    )?;
    let s = shared.clone();
    let bindings = call.bindings.as_ref().map(copy_bindings).unwrap_or_default();
    java.set(
        "__nativeVariableGet",
        Func::new(move |key: String| -> String {
            let session = s.in_session(|x| x.get_variable(&key)).flatten();
            let stored = s.values.borrow().get(&key);
            java_variable(&bindings, &key, session, stored)
        }),
    )?;
    java.set(
        "log",
        Func::new(|_message: Opt<String>| {}),
    )?;
    java.set("toast", Func::new(|_message: Opt<String>| {}))?;
    java.set("longToast", Func::new(|_message: Opt<String>| {}))?;
    let base_url = call.base_url.clone().unwrap_or_default();
    java.set(
        "htmlFormat",
        Func::new(move |html: String| -> String { format_keep_img(&html, &base_url) }),
    )?;
    ctx.globals().set("java", java)
}

fn copy_bindings(bindings: &Vec<(String, Json)>) -> Vec<(String, Json)> {
    bindings.iter().map(|(n, v)| (n.clone(), reader_parser::ext::json::copy_json(v))).collect()
}

fn connect<'js>(ctx: Ctx<'js>, shared: &Rc<Shared>, url: &str, headers_json: &str) -> String {
    let source = shared.source.borrow().clone();
    let client = shared.client();
    shared.hosted(Nested { shared: shared.clone(), ctx }, |host| {
        java_net::java_analyzed_request_response(&client, source.as_ref(), url, headers_json, host)
    })
}

fn simple(shared: &Rc<Shared>, method: &str, url: &str, body: Option<&str>, headers_json: &str) -> String {
    let client = shared.client();
    shared.hosted(Sending { shared: shared.clone() }, |host| {
        java_net::java_request_simple_response(&client, method, url, body, headers_json, host)
    })
}

fn install_network<'js>(java: &Object<'js>, shared: &Rc<Shared>) -> rquickjs::Result<()> {
    let s = shared.clone();
    java.set(
        "ajax",
        Func::new(move |spec: String| -> String {
            let client = s.client();
            s.hosted(Sending { shared: s.clone() }, |host| java_net::java_ajax(&client, &spec, host))
        }),
    )?;
    let s = shared.clone();
    java.set(
        "__nativeConnect",
        Func::new(move |ctx: Ctx<'js>, url: String, headers_json: String| -> String {
            connect(ctx, &s, &url, &headers_json)
        }),
    )?;
    let s = shared.clone();
    java.set(
        "__nativeAjaxAllItem",
        Func::new(move |ctx: Ctx<'js>, url: String| -> String { connect(ctx, &s, &url, "") }),
    )?;
    let s = shared.clone();
    java.set(
        "__nativeGet",
        Func::new(move |url: String, headers_json: String| -> String { simple(&s, "GET", &url, None, &headers_json) }),
    )?;
    let s = shared.clone();
    java.set(
        "__nativePost",
        Func::new(move |url: String, body: String, headers_json: String| -> String {
            simple(&s, "POST", &url, Some(&body), &headers_json)
        }),
    )?;
    let s = shared.clone();
    java.set(
        "__nativeHead",
        Func::new(move |url: String, headers_json: String| -> String { simple(&s, "HEAD", &url, None, &headers_json) }),
    )
}

fn install_codecs<'js>(java: &Object<'js>) -> rquickjs::Result<()> {
    java.set("md5Encode", Func::new(|input: String| -> String { java_codec::md5_encode(&input) }))?;
    for name in ["md5To16", "md5Encode16"] {
        java.set(name, Func::new(|input: String| -> String { java_codec::md5_to_16(&input) }))?;
    }
    java.set("base64Encode", Func::new(|input: String| -> String { java_codec::java_base64_encode(&input) }))?;
    java.set(
        "base64Decode",
        Func::new(|input: String, charset: Opt<String>| -> String {
            java_codec::java_base64_decode(&input, charset.0.as_deref())
        }),
    )?;
    java.set(
        "base64DecodeBytes",
        Func::new(|input: String| -> String { java_codec::java_base64_decode_bytes(&input, 0) }),
    )?;
    java.set(
        "__base64EncodeBytes",
        Func::new(|bytes: String, flags: i32| -> String { java_codec::java_base64_encode_bytes(&bytes, flags) }),
    )?;
    java.set(
        "__base64DecodeBytes",
        Func::new(|input: String, flags: i32| -> String { java_codec::java_base64_decode_bytes(&input, flags) }),
    )?;
    java.set(
        "__hmacBytes",
        Func::new(|algorithm: String, key: String, data: String| -> String {
            java_codec::java_hmac_bytes(&algorithm, &key, &data)
        }),
    )?;
    java.set(
        "__strToBytes",
        Func::new(|input: String, charset: Opt<String>| -> String {
            java_codec::write_bytes(&java_codec::java_str_to_bytes(&input, charset.0.as_deref()))
        }),
    )?;
    java.set(
        "__bytesToStr",
        Func::new(|bytes: String, charset: String| -> String {
            java_codec::java_bytes_to_str(&java_codec::json_byte_array(&bytes), Some(&charset))
        }),
    )?;
    java.set(
        "__hexDecodeBytes",
        Func::new(|input: String| -> String { java_codec::write_bytes(&java_codec::hex_decode(&input)) }),
    )?;
    java.set(
        "hexDecodeToString",
        Func::new(|input: String| -> String { java_codec::hex_decode_to_string(&input) }),
    )?;
    java.set(
        "hexEncodeToString",
        Func::new(|input: String| -> String { java_codec::hex_encode_to_string(&input) }),
    )?;
    java.set(
        "aesBase64DecodeToString",
        Func::new(|input: String, key: String, algorithm: String, iv: String| -> String {
            java_codec::java_aes_base64_decode_to_string(&input, &key, &algorithm, &iv)
        }),
    )?;
    java.set(
        "aesDecryptBytes",
        Func::new(|input: String| -> String { java_codec::java_aes_decrypt_bytes(&input) }),
    )?;
    java.set(
        "__aesDecryptByteArray",
        Func::new(|input: String| -> String {
            java_codec::write_bytes(&java_codec::java_aes_decrypt_byte_array(&input))
        }),
    )?;
    java.set(
        "aesBase64Encode",
        Func::new(|input: String, key: String, algorithm: String, iv: String| -> String {
            java_codec::java_aes_base64_encode(&input, &key, &algorithm, &iv)
        }),
    )?;
    java.set(
        "aesEncode",
        Func::new(|input: String, key: String, algorithm: String, iv: String| -> String {
            java_codec::java_aes_encode(&input, &key, &algorithm, &iv)
        }),
    )?;
    java.set("escape", Func::new(|input: String| -> String { java_codec::java_escape(&input) }))?;
    java.set("unescape", Func::new(|input: String| -> String { java_codec::java_unescape(&input) }))?;
    java.set("gzip", Func::new(|input: String| -> String { java_codec::java_gzip(&input) }))?;
    java.set("ungzip", Func::new(|input: String| -> String { java_codec::java_ungzip(&input) }))?;
    java.set(
        "encodeURIComponent",
        Func::new(|input: String| -> String { java_codec::java_encode_uri_component(&input) }),
    )?;
    for name in ["decodeURIComponent", "decodeURI"] {
        java.set(name, Func::new(|input: String| -> String { java_codec::java_decode_uri(&input) }))?;
    }
    java.set(
        "encodeURI",
        Func::new(|input: String, charset: Opt<String>| -> String {
            java_codec::java_encode_uri(&input, charset.0.as_deref())
        }),
    )
}

fn install_rules<'js>(java: &Object<'js>, shared: &Rc<Shared>, call: &ScriptCall) -> rquickjs::Result<()> {
    let content = Rc::new(RefCell::new(call.input.clone().unwrap_or_default()));
    let base_url = call.base_url.clone().unwrap_or_default();

    let state = content.clone();
    java.set(
        "setContent",
        Func::new(move |text: String| -> String {
            *state.borrow_mut() = text.clone();
            text
        }),
    )?;
    let (s, state, base) = (shared.clone(), content.clone(), base_url.clone());
    java.set(
        "getString",
        Func::new(
            move |ctx: Ctx<'js>,
                  rule: Option<String>,
                  text: Option<String>,
                  is_url: Option<bool>,
                  unescape: Option<bool>|
                  -> String {
                let fallback = state.borrow().clone();
                s.hosted(Nested { shared: s.clone(), ctx }, |host| {
                    java_rules::java_get_string(
                        rule.as_deref(),
                        text.as_deref(),
                        &fallback,
                        &base,
                        is_url.unwrap_or(false),
                        unescape.unwrap_or(true),
                        host,
                    )
                })
            },
        ),
    )?;
    let (s, state, base) = (shared.clone(), content.clone(), base_url.clone());
    java.set(
        "getStringList",
        Func::new(
            move |ctx: Ctx<'js>, rule: Option<String>, text: Option<String>, is_url: Option<bool>| -> Vec<String> {
                let fallback = state.borrow().clone();
                s.hosted(Nested { shared: s.clone(), ctx }, |host| {
                    java_rules::java_get_string_list(
                        rule.as_deref(),
                        text.as_deref(),
                        &fallback,
                        &base,
                        is_url.unwrap_or(false),
                        host,
                    )
                })
            },
        ),
    )?;
    let (s, state, base) = (shared.clone(), content.clone(), base_url.clone());
    java.set(
        "getElements",
        Func::new(
            move |ctx: Ctx<'js>, rule: String, text: Option<String>, raw_css: Option<bool>| -> String {
                let text = text.unwrap_or_else(|| state.borrow().clone());
                s.hosted(Nested { shared: s.clone(), ctx }, |host| {
                    java_rules::java_get_elements_json_with_mode(
                        &rule,
                        &text,
                        &base,
                        raw_css.unwrap_or(false),
                        host,
                    )
                })
            },
        ),
    )?;
    let (s, state, base) = (shared.clone(), content, base_url);
    java.set(
        "getElement",
        Func::new(move |ctx: Ctx<'js>, rule: String, text: Option<String>| -> String {
            let text = text.unwrap_or_else(|| state.borrow().clone());
            s.hosted(Nested { shared: s.clone(), ctx }, |host| {
                java_rules::java_get_elements_json(&rule, &text, &base, host)
            })
        }),
    )
}

fn host() -> Host<Engine> {
    Host::new(Engine::new().unwrap())
}

fn host_with_site(site: Site) -> Host<Engine> {
    let engine = Engine::new().unwrap();
    *engine.shared().site.borrow_mut() = site;
    Host::new(engine)
}

/// Runs a script in an engine of its own.
fn run_js(script: &str, input: &str, base_url: &str) -> Result<String, String> {
    eval_js(script, input, base_url, &mut host())
}

fn value(text: &str) -> Json {
    read_json(text).unwrap()
}

fn member<'a>(members: &'a [(String, Json)], name: &str) -> &'a Json {
    &members.iter().find(|(key, _)| key == name).unwrap().1
}

fn text_of(json: &Json) -> String {
    json_to_text(json)
}

fn variables(text: Option<&str>) -> HashMap<String, String> {
    serde_json::from_str(text.unwrap()).unwrap()
}

fn no_session() -> ExecuteSession {
    ExecuteSession { cookies: None, header: None, variables: None }
}

fn response(url: &str, status: u16, headers: &[(&str, &str)], body: &[u8]) -> RawResponse {
    RawResponse {
        url: url.to_string(),
        status,
        headers: headers.iter().map(|(n, v)| (n.to_string(), Some(v.to_string()))).collect(),
        body: body.to_vec(),
    }
}

fn json_page(url: &str, body: &str) -> RawResponse {
    response(url, 200, &[("content-type", "application/json; charset=utf-8")], body.as_bytes())
}

#[test]
fn test_detect_mode() {
    let engine = RuleEngine::new().unwrap();

    assert_eq!(engine.detect_mode("@css:.test", ""), ParseMode::Css);
    assert_eq!(engine.detect_mode("@xpath://div", ""), ParseMode::XPath);
    assert_eq!(engine.detect_mode("$.data.list", ""), ParseMode::JsonPath);
    assert_eq!(engine.detect_mode("/html/body/div", ""), ParseMode::XPath);
    assert_eq!(engine.detect_mode(".class", ""), ParseMode::Css);
    assert_eq!(engine.detect_mode("js:return 1", ""), ParseMode::Js);
    assert_eq!(engine.detect_mode("<js>return 1</js>", ""), ParseMode::Js);
}

#[test]
fn xpath_book_info_uses_tolerant_fragment_parser() {
    let mut host = host();
    let source = BookSource {
        book_source_name: "XPath".to_string(),
        book_source_url: "https://source.example".to_string(),
        ..Default::default()
    };
    let rule = BookInfoRule {
        name: Some("//name/text()".to_string()),
        author: Some("//author/text()".to_string()),
        ..Default::default()
    };
    let mut ctx = RuleVariableContext::for_book(None, None);
    let book = parse_book_info_xpath(
        &source,
        "<name>Book&nbsp;Title</name><author>Writer</author>",
        "https://books.example/detail/1",
        &rule,
        "https://books.example/detail/1",
        &mut ctx,
            &mut host,
        );

    assert_eq!(book.name, "Book\u{00a0}Title");
    assert_eq!(book.author, "Writer");
}

#[test]
fn xpath_toc_uses_tolerant_fragment_parser() {
    let mut host = host();
    let rule = TocRule {
        chapter_list: Some("//chapter".to_string()),
        chapter_name: Some("./name/text()".to_string()),
        chapter_url: Some("./url/text()".to_string()),
        ..Default::default()
    };
    let body = "<chapter><name>One&nbsp;Chapter</name><url>/1</url></chapter><chapter><name>Two</name><url>/2</url></chapter>";
    let (chapters, next_urls) = parse_chapter_list_xpath(
        body,
        "https://books.example/toc",
        &rule,
        "//chapter",
        &mut RuleVariableContext::empty(),
            &mut host,
        );

    assert!(next_urls.is_empty());
    assert_eq!(chapters.len(), 2);
    assert_eq!(chapters[0].title, "One\u{00a0}Chapter");
    assert_eq!(chapters[0].url, "https://books.example/1");
    assert_eq!(chapters[1].title, "Two");
}

#[test]
fn compat_all_in_one_regex_exposes_groups_and_keeps_group_zero_literal() {
    let mut host = host();
    let source = BookSource {
        book_source_name: "Regex compatibility".to_string(),
        book_source_url: "https://regex.example".to_string(),
        rule_search: Some(SearchRule {
            book_list: Some(r#":<a href="([^"]+)">([^<]+)</a>"#.to_string()),
            name: Some("$2".to_string()),
            book_url: Some("$1".to_string()),
            author: Some("$0".to_string()),
            ..Default::default()
        }),
        ..Default::default()
    };
    let results = RuleEngine::new().unwrap().search_books(
        &source,
        r#"<li><a href="/1">第一章</a></li><li><a href="/2">第二章</a></li>"#,
        "https://regex.example",
            &mut host,
        );

    assert_eq!(results.len(), 2);
    assert_eq!(results[0].name, "第一章");
    assert_eq!(results[0].book_url, "https://regex.example/1");
    assert_eq!(results[0].author, "$0");
    assert_eq!(results[1].name, "第二章");
}

#[test]
fn compat_all_in_one_regex_chains_stages_and_preserves_literal_groups() {
    let rows = regex_capture_rows(r":([a-z]\d)&&([a-z])(\d)", "a1 b2");
    assert_eq!(rows.len(), 2);
    assert_eq!(
        rows[0],
        vec![Some("a1".into()), Some("a".into()), Some("1".into())]
    );
    assert_eq!(
        capture_rule_values("$1/$2/$0/$99", &rows[0]).as_deref(),
        Some("a/1/$0/$99")
    );
}

#[test]
fn compat_mode_detection_strips_css_override_and_double_at() {
    assert_eq!(
        classify_rule_mode("@@.title", ParseMode::Css, false),
        (ParseMode::Css, ".title".to_string())
    );
    assert_eq!(
        classify_rule_mode("@CSS:.title", ParseMode::Css, false),
        (ParseMode::Css, ".title".to_string())
    );
}

#[test]
fn compat_put_parser_keeps_quoted_commas_inside_values() {
    let (rule, entries) = extract_put_entries(r#"@put:{alias: ".name, .author"}"#);
    assert!(rule.is_empty());
    assert_eq!(entries.len(), 1);
    assert_eq!(entries[0].key, "alias");
    assert_eq!(entries[0].value_rule, ".name, .author");
}

#[test]
fn compat_search_item_variables_survive_into_book_info_independently() {
    let mut host = host();
    let source = BookSource {
        book_source_name: "Variable scope".to_string(),
        book_source_url: "https://source.example".to_string(),
        rule_search: Some(SearchRule {
            book_list: Some(".item".to_string()),
            name: Some(".name@text@put:{bid:.id@text}".to_string()),
            book_url: Some(".url@href".to_string()),
            ..Default::default()
        }),
        rule_book_info: Some(BookInfoRule {
            name: Some("@get:{bid}".to_string()),
            ..Default::default()
        }),
        ..Default::default()
    };
    let books = RuleEngine::new().unwrap().search_books(
        &source,
        r#"<div class="item"><span class="name">Alpha</span><i class="id">A</i><a class="url" href="/A"></a></div><div class="item"><span class="name">Beta</span><i class="id">B</i><a class="url" href="/B"></a></div>"#,
        "https://source.example/search",
            &mut host,
        );
    assert_eq!(books.len(), 2);
    assert_eq!(
        variables(books[0].variable.as_deref())["bid"],
        "A"
    );
    assert_eq!(
        variables(books[1].variable.as_deref())["bid"],
        "B"
    );

    let detail = RuleEngine::new().unwrap().book_info_with_variable(
        &source,
        "<html></html>",
        "https://source.example/B",
        "https://source.example/B",
        books[1].variable.as_deref(),
        Some(&books[1].name),
            &mut host,
        );
    assert_eq!(detail.name, "B");
    assert_eq!(detail.variable, books[1].variable);
}

#[test]
fn compat_chapter_variables_are_isolated_and_reach_content_rules() {
    let mut host = host();
    let source = BookSource {
        rule_toc: Some(TocRule {
            chapter_list: Some(".chapter".to_string()),
            chapter_name: Some(".name@text@put:{cid:.id@text}".to_string()),
            chapter_url: Some(".url@href".to_string()),
            ..Default::default()
        }),
        rule_content: Some(ContentRule {
            content: Some("js:'{{@get:{bid}}}/{{@get:{cid}}}/{{title}}'".to_string()),
            next_content_url: Some("js:'next/{{@get:{cid}}}-{{title}}'".to_string()),
            ..Default::default()
        }),
        ..Default::default()
    };
    let book_variable = r#"{"bid":"book"}"#;
    let body = r#"
        <div class="chapter"><span class="id">A</span><span class="name">Alpha</span><a class="url" href="/a"></a></div>
        <div class="chapter"><span class="id">B</span><span class="name">Beta</span><a class="url" href="/b"></a></div>
    "#;
    let (chapters, _) = RuleEngine::new().unwrap().chapter_list_with_variable(
        &source,
        body,
        "https://source.example/toc",
        Some(book_variable),
        Some("Book"),
            &mut host,
        );

    assert_eq!(chapters.len(), 2);
    assert_eq!(
        variables(chapters[0].variable.as_deref())["cid"],
        "A"
    );
    assert_eq!(
        variables(chapters[1].variable.as_deref())["cid"],
        "B"
    );
    let engine = RuleEngine::new().unwrap();
    assert_eq!(
        engine.content_with_variables(
            &source,
            "<div>ignored</div>",
            "https://source.example/chapter/b",
            Some(book_variable),
            chapters[1].variable.as_deref(),
            Some("Book"),
            Some(&chapters[1].title),
            &mut host,
        ),
        "book/B/Beta"
    );
    assert_eq!(
        engine.next_content_url_with_variables(
            &source,
            "<div>ignored</div>",
            "https://source.example/chapter/b",
            Some(book_variable),
            chapters[1].variable.as_deref(),
            Some("Book"),
            Some(&chapters[1].title),
            &mut host,
        ),
        Some("https://source.example/chapter/next/B-Beta".to_string())
    );
}

#[test]
fn compat_variable_context_obeys_scope_priority_and_persists_source_fallback() {
    let mut host = host();
    let mut context = RuleVariableContext::for_book(
        Some(r#"{"key":"book","bookOnly":"book"}"#),
        Some("Current Book"),
    );
    let mut rule_data = Variables::new();
    rule_data.insert("key".to_string(), "ruleData".to_string());
    context.rule_data = Some(rule_data);
    let mut chapter = Variables::new();
    chapter.insert("key".to_string(), "chapter".to_string());
    context.chapter = Some(chapter);
    context.chapter_title = Some("Current Chapter".to_string());
    assert_eq!(context.get("key", &mut host).as_deref(), Some("chapter"));
    assert_eq!(context.get("bookOnly", &mut host).as_deref(), Some("book"));
    assert_eq!(context.get("bookName", &mut host).as_deref(), Some("Current Book"));
    assert_eq!(context.get("title", &mut host).as_deref(), Some("Current Chapter"));
    context.insert("written".to_string(), "chapter-value".to_string(), &mut host);
    assert_eq!(
        context.chapter.as_ref().unwrap().get("written").as_deref(),
        Some("chapter-value")
    );

    let initial = ExecuteSession {
        variables: Some(vec![("sourceKey".to_string(), value("\"source-value\""))]),
        ..no_session()
    };
    host.begin(Some(&initial), "https://source.example");
    let mut context = RuleVariableContext::empty();
    assert_eq!(context.get("sourceKey", &mut host).as_deref(), Some("source-value"));
    context.insert("sourceKey".to_string(), "updated".to_string(), &mut host);
    let delta = host.end();
    assert_eq!(
        text_of(member(&delta.unwrap().variables.unwrap(), "sourceKey")),
        "\"updated\""
    );
}

#[test]
fn compat_templates_coerce_values_and_expand_only_once() {
    let mut host = host();
    let json = value(r#"{"name": "Book"}"#);
    let mut ctx = RuleVariableContext::for_book(None, None);
    ctx.insert("alias".to_string(), "Alias".to_string(), &mut host);
    let expanded = interpolate_templates(
        "{{$.name}}|{{1 + 2}}|{{null}}|{{String.fromCharCode(123,123) + 'x' + String.fromCharCode(125,125)}}|{{@get:{alias}}}",
        r#"{"name":"Book"}"#,
        "https://example.test",
        &ctx,
        Some(&json),
        &mut host,
    );
    assert_eq!(expanded, "Book|3||{{x}}|Alias");
}

#[test]
fn compat_css_rule_can_chain_javascript_transform() {
    let mut host = host();
    let doc = parse_document(r#"<div class="name">Book</div>"#);
    let value = eval_field(
        &Scope::Page(&doc),
        ".name@js:result.toUpperCase()",
        "https://example.test",
        &mut RuleVariableContext::empty(),
        &mut host,
    );
    assert_eq!(value.as_deref(), Some("BOOK"));
}

#[test]
fn compat_regex_search_put_values_are_scoped_per_item() {
    let mut host = host();
    let source = BookSource {
        rule_search: Some(SearchRule {
            book_list: Some(r#":<a href="([^"]+)">([^<]+)</a>"#.to_string()),
            name: Some("$2@put:{bid:$1}".to_string()),
            book_url: Some("$1".to_string()),
            ..Default::default()
        }),
        ..Default::default()
    };
    let books = RuleEngine::new().unwrap().search_books(
        &source,
        r#"<a href="/a">Alpha</a><a href="/b">Beta</a>"#,
        "https://source.example",
            &mut host,
        );
    assert_eq!(books.len(), 2);
    assert_eq!(
        variables(books[0].variable.as_deref())["bid"],
        "/a"
    );
    assert_eq!(
        variables(books[1].variable.as_deref())["bid"],
        "/b"
    );
}

#[test]
fn compat_toc_truthiness_matches_standard_values() {
    for value in ["", "null", "false", "no", "0"] {
        assert!(!is_truthy(value), "{value:?} must be false");
    }
    for value in ["true", "1", "VIP"] {
        assert!(is_truthy(value), "{value:?} must be true");
    }
}

#[test]
fn compat_toc_truthiness_treats_not_as_false() {
    assert!(!is_truthy("not"));
    assert!(!is_truthy("NOT"));
}

#[test]
fn test_apply_legado_regex() {
    let text = "Hello World 123 456";

    assert_eq!(
        apply_legado_regex(text, "##\\d+##NUM"),
        "Hello World NUM NUM"
    );
    assert_eq!(apply_legado_regex(text, "##\\d+##NUM###"), "NUM");
    assert_eq!(apply_legado_regex(text, "##[##X"), "Hello World 123 456");
    assert_eq!(apply_legado_regex("a[b", "##[##X"), "aXb");
    assert_eq!(apply_legado_regex("nothing", "##\\d+##N###"), "");
    assert_eq!(apply_legado_regex("a[b", "##[##X###"), "X");
    assert_eq!(apply_legado_regex("no match", "##[##X###"), "X");
}

#[test]
fn test_search_detail_fallback_uses_book_info_rules() {
    let mut host = host();
    let engine = RuleEngine::new().unwrap();
    let source = BookSource {
        book_source_name: "Test".to_string(),
        book_source_url: "https://source.example".to_string(),
        rule_search: Some(SearchRule {
            book_list: Some(String::new()),
            ..Default::default()
        }),
        rule_book_info: Some(BookInfoRule {
            name: Some(".name@text".to_string()),
            author: Some(".author@text".to_string()),
            intro: Some(".intro@text".to_string()),
            ..Default::default()
        }),
        ..Default::default()
    };
    let body = r#"
        <div class="name">Fallback Book</div>
        <div class="author">Fallback Author</div>
        <div class="intro">Fallback Intro</div>
    "#;

    let results = engine.search_books(&source, body, "https://books.example/detail/1", &mut host);
    assert_eq!(results.len(), 1);
    assert_eq!(results[0].name, "Fallback Book");
    assert_eq!(results[0].author, "Fallback Author");
    assert_eq!(results[0].intro.as_deref(), Some("Fallback Intro"));
}

#[test]
fn compat_book_url_pattern_prefers_detail_parse_and_matches_whole_url() {
    let mut host = host();
    let source = BookSource {
        book_url_pattern: Some(r"https://books\.example/detail/\d+".to_string()),
        rule_search: Some(SearchRule {
            book_list: Some(".result".to_string()),
            name: Some(".list-name@text".to_string()),
            ..Default::default()
        }),
        rule_book_info: Some(BookInfoRule {
            name: Some(".detail-name@text".to_string()),
            ..Default::default()
        }),
        ..Default::default()
    };
    let body = r#"<div class="result"><span class="list-name">List result</span></div><h1 class="detail-name">Detail page</h1>"#;
    let results = RuleEngine::new().unwrap().search_books(
        &source,
        body,
        "https://books.example/detail/12",
            &mut host,
        );
    assert_eq!(results.len(), 1);
    assert_eq!(results[0].name, "Detail page");
    assert!(!book_url_pattern_matches(
        &source.book_url_pattern,
        "https://books.example/detail/12?query=1"
    ));
    assert!(!book_url_pattern_matches(
        &Some("NONE".to_string()),
        "https://books.example/detail/12"
    ));
}

#[test]
fn compat_empty_explore_falls_back_to_detail_and_search_dedupes_in_order() {
    let mut host = host();
    let source = BookSource {
        rule_explore: Some(SearchRule {
            book_list: Some(".missing".to_string()),
            ..Default::default()
        }),
        rule_search: Some(SearchRule {
            book_list: Some("-.item".to_string()),
            name: Some(".name@text".to_string()),
            book_url: Some("@href".to_string()),
            ..Default::default()
        }),
        rule_book_info: Some(BookInfoRule {
            name: Some(".detail-name@text".to_string()),
            ..Default::default()
        }),
        ..Default::default()
    };
    let engine = RuleEngine::new().unwrap();
    let detail = engine.explore_books(
        &source,
        r#"<h1 class="detail-name">Fallback detail</h1>"#,
        "https://books.example/detail/1",
            &mut host,
        );
    assert_eq!(detail.len(), 1);
    assert_eq!(detail[0].name, "Fallback detail");

    let results = engine.search_books(
        &source,
        r#"<a class="item" href="/a"><span class="name">First</span></a><a class="item" href="/b"><span class="name">Middle</span></a><a class="item" href="/a"><span class="name">Duplicate</span></a>"#,
        "https://books.example/search",
            &mut host,
        );
    assert_eq!(results.len(), 2);
    assert_eq!(results[0].name, "Middle");
    assert_eq!(results[1].name, "First");
}

#[test]
fn test_search_books_regex_list() {
    let mut host = host();
    let engine = RuleEngine::new().unwrap();
    let source = BookSource {
        book_source_name: "Regex".to_string(),
        book_source_url: "https://source.example".to_string(),
        rule_search: Some(SearchRule {
            book_list: Some(r#":<a href="([^"]+)">([^<]+)</a>"#.to_string()),
            name: Some("$2".to_string()),
            book_url: Some("$1".to_string()),
            ..Default::default()
        }),
        ..Default::default()
    };
    let body = r#"<a href="/book/1">One</a><a href="/book/2">Two</a>"#;

    let results = engine.search_books(&source, body, "https://books.example", &mut host);
    assert_eq!(results.len(), 2);
    assert_eq!(results[0].name, "One");
    assert_eq!(results[0].book_url, "https://books.example/book/1");
    assert_eq!(results[1].name, "Two");
}

#[test]
fn test_search_books_js_json_list() {
    let mut host = host();
    let engine = RuleEngine::new().unwrap();
    let source = BookSource {
        book_source_name: "JS".to_string(),
        book_source_url: "https://source.example".to_string(),
        rule_search: Some(SearchRule {
            book_list: Some(
                "js:JSON.stringify([{name:'Alpha',author:'Tester',bookUrl:'/alpha'}])"
                    .to_string(),
            ),
            name: Some("name".to_string()),
            author: Some("author".to_string()),
            book_url: Some("bookUrl".to_string()),
            ..Default::default()
        }),
        ..Default::default()
    };

    let results = engine.search_books(&source, "<html></html>", "https://books.example", &mut host);
    assert_eq!(results.len(), 1);
    assert_eq!(results[0].name, "Alpha");
    assert_eq!(results[0].author, "Tester");
    assert_eq!(results[0].book_url, "https://books.example/alpha");
}

#[test]
fn test_chapter_list_js_and_format_js() {
    let mut host = host();
    let engine = RuleEngine::new().unwrap();
    let source = BookSource {
        book_source_name: "JS TOC".to_string(),
        book_source_url: "https://source.example".to_string(),
        rule_toc: Some(TocRule {
            chapter_list: Some("js:JSON.stringify([{chapterName:'One',chapterUrl:'/1',isVip:'1'},{chapterName:'Two',chapterUrl:'/2',isPay:'true'}])".to_string()),
            chapter_name: Some("chapterName".to_string()),
            chapter_url: Some("chapterUrl".to_string()),
            is_vip: Some("isVip".to_string()),
            is_pay: Some("isPay".to_string()),
            format_js: Some("`${index}.${title}`".to_string()),
            ..Default::default()
        }),
        ..Default::default()
    };

    let (chapters, next_urls) =
        engine.chapter_list(&source, "<html></html>", "https://books.example", &mut host);
    assert!(next_urls.is_empty());
    assert_eq!(chapters.len(), 2);
    assert_eq!(chapters[0].title, "1.One");
    assert_eq!(chapters[0].url, "https://books.example/1");
    assert!(chapters[0].is_vip);
    assert_eq!(chapters[1].title, "2.Two");
    assert!(chapters[1].is_pay);
}

#[test]
fn compat_toc_next_urls_drop_current_page_and_dedupe() {
    let mut host = host();
    let source = BookSource {
        rule_toc: Some(TocRule {
            chapter_list: Some(".chapter".to_string()),
            chapter_name: Some(".name@text".to_string()),
            chapter_url: Some(".url@href".to_string()),
            next_toc_url: Some(".next@href".to_string()),
            ..Default::default()
        }),
        ..Default::default()
    };
    let body = r#"
        <div class="chapter"><span class="name">One</span><a class="url" href="/one"></a></div>
        <a class="next" href="/toc/1#page"></a>
        <a class="next" href="/toc/2"></a>
        <a class="next" href="/toc/2"></a>
    "#;
    let (chapters, next_urls) =
        RuleEngine::new()
            .unwrap()
            .chapter_list(&source, body, "https://books.example/toc/1", &mut host);
    assert_eq!(chapters.len(), 1);
    assert_eq!(next_urls, vec!["https://books.example/toc/2"]);
}

#[test]
fn compat_js_toc_rule_keeps_next_page_urls() {
    let mut host = host();
    let source = BookSource {
        rule_toc: Some(TocRule {
            chapter_list: Some(
                "js:JSON.stringify([{chapterName:'One',chapterUrl:'/one'}])".to_string(),
            ),
            chapter_name: Some("chapterName".to_string()),
            chapter_url: Some("chapterUrl".to_string()),
            next_toc_url: Some("$.next".to_string()),
            ..Default::default()
        }),
        ..Default::default()
    };
    let (chapters, next_urls) = RuleEngine::new().unwrap().chapter_list(
        &source,
        r#"{"next":"/toc/2"}"#,
        "https://books.example/toc/1",
            &mut host,
        );
    assert_eq!(chapters.len(), 1);
    assert_eq!(next_urls, vec!["https://books.example/toc/2"]);
}

#[test]
fn test_chapter_list_keeps_real_chapterlist_container() {
    let mut host = host();
    let engine = RuleEngine::new().unwrap();
    let source = BookSource {
        book_source_name: "HTML TOC".to_string(),
        book_source_url: "https://source.example".to_string(),
        rule_toc: Some(TocRule {
            chapter_list: Some("#chapterlist a".to_string()),
            chapter_name: Some("@text".to_string()),
            chapter_url: Some("@href".to_string()),
            ..Default::default()
        }),
        ..Default::default()
    };
    let body = r#"
        <div id="chapterlist">
            <a href="/1">第一章</a>
            <a href="/2">第二章</a>
        </div>
    "#;

    let (chapters, next_urls) = engine.chapter_list(&source, body, "https://books.example", &mut host);
    assert!(next_urls.is_empty());
    assert_eq!(chapters.len(), 2);
    assert_eq!(chapters[0].url, "https://books.example/1");
    assert_eq!(chapters[1].url, "https://books.example/2");
}

#[test]
fn test_search_books_js_uses_js_lib() {
    let mut host = host();
    let engine = RuleEngine::new().unwrap();
    let source = BookSource {
        book_source_name: "JS Lib".to_string(),
        book_source_url: "https://source.example".to_string(),
        js_lib: Some("function buildName(v){ return v + '-lib'; }".to_string()),
        rule_search: Some(SearchRule {
            book_list: Some("js:JSON.stringify([{name:buildName('Alpha'),author:'Tester',bookUrl:'/alpha'}])".to_string()),
            name: Some("name".to_string()),
            author: Some("author".to_string()),
            book_url: Some("bookUrl".to_string()),
            ..Default::default()
        }),
        ..Default::default()
    };

    let results = engine.search_books(&source, "<html></html>", "https://books.example", &mut host);
    assert_eq!(results.len(), 1);
    assert_eq!(results[0].name, "Alpha-lib");
}

#[test]
fn html_book_info_init_selector_limits_field_scope() {
    let mut host = host();
    let source = BookSource {
        book_source_name: "Scoped Info".to_string(),
        book_source_url: "https://source.example".to_string(),
        ..Default::default()
    };
    let rule = BookInfoRule {
        init: Some(".book-detail".to_string()),
        name: Some(".name@text".to_string()),
        author: Some(".author@text".to_string()),
        ..Default::default()
    };
    let body = r#"<section class="book-detail"><h1 class="name">Scoped</h1><span class="author">Alice</span></section><h1 class="name">Outside</h1>"#;
    let book = parse_book_info_html(
        &source,
        body,
        "https://books.example/detail/1",
        &rule,
        "https://books.example/detail/1",
        &mut RuleVariableContext::for_book(None, None),
            &mut host,
        );

    assert_eq!(book.name, "Scoped");
    assert_eq!(book.author, "Alice");
}

#[test]
fn html_book_info_init_selector_miss_falls_back_to_document() {
    let mut host = host();
    let source = BookSource::default();
    let rule = BookInfoRule {
        init: Some(".missing".to_string()),
        name: Some(".name@text".to_string()),
        ..Default::default()
    };
    let book = parse_book_info_html(
        &source,
        r#"<div class="name">Original scope</div>"#,
        "https://books.example/detail/1",
        &rule,
        "https://books.example/detail/1",
        &mut RuleVariableContext::for_book(None, None),
            &mut host,
        );

    assert_eq!(book.name, "Original scope");
}

#[test]
fn html_book_info_js_init_uses_returned_html_as_scope() {
    let mut host = host();
    let source = BookSource::default();
    let js_init = r#"@js:'<section><h1 class="name">From JS</h1></section>'"#;
    let rule = BookInfoRule {
        init: Some(js_init.to_string()),
        name: Some(".name@text".to_string()),
        ..Default::default()
    };
    let book = parse_book_info_html(
        &source,
        r#"<div class="name">Original</div>"#,
        "https://books.example/detail/1",
        &rule,
        "https://books.example/detail/1",
        &mut RuleVariableContext::for_book(None, None),
            &mut host,
        );

    assert_eq!(book.name, "From JS");
}

#[test]
fn html_book_info_js_init_plain_text_keeps_original_scope() {
    let mut host = host();
    let source = BookSource::default();
    let rule = BookInfoRule {
        init: Some("@js:'not HTML'".to_string()),
        name: Some(".name@text".to_string()),
        ..Default::default()
    };
    let book = parse_book_info_html(
        &source,
        r#"<div class="name">Original</div>"#,
        "https://books.example/detail/1",
        &rule,
        "https://books.example/detail/1",
        &mut RuleVariableContext::for_book(None, None),
            &mut host,
        );

    assert_eq!(book.name, "Original");
}

#[test]
fn html_book_info_keeps_json_and_xpath_init_scopes() {
    let mut host = host();
    let source = BookSource::default();
    let json_rule = BookInfoRule {
        init: Some("$.data.book".to_string()),
        name: Some("$.name".to_string()),
        ..Default::default()
    };
    let json_value = value(
        r#"{
        "data": {"book": {"name": "JSON scoped"}},
        "name": "JSON outer"
    }"#,
    );
    let json_book = parse_book_info_json(
        &source,
        &json_value,
        "https://books.example/detail/1",
        &json_rule,
        "https://books.example/detail/1",
        &mut RuleVariableContext::for_book(None, None),
            &mut host,
        );

    let xpath_rule = BookInfoRule {
        init: Some("//book".to_string()),
        name: Some("name/text()".to_string()),
        ..Default::default()
    };
    let xpath_book = parse_book_info_xpath(
        &source,
        "<root><book><name>XPath scoped</name></book></root>",
        "https://books.example/detail/1",
        &xpath_rule,
        "https://books.example/detail/1",
        &mut RuleVariableContext::for_book(None, None),
            &mut host,
        );

    assert_eq!(json_book.name, "JSON scoped");
    assert_eq!(xpath_book.name, "XPath scoped");
}

#[test]
fn test_book_info_html_interpolates_get_template() {
    let mut host = host();
    let source = BookSource {
        book_source_name: "Info".to_string(),
        book_source_url: "https://source.example".to_string(),
        rule_book_info: Some(BookInfoRule {
            init: Some("@put:{alias:.name@text}".to_string()),
            name: Some("Book-@get:{alias}".to_string()),
            author: Some(".author@text".to_string()),
            ..Default::default()
        }),
        ..Default::default()
    };
    let body = r#"<div class="name">Alias</div><div class="author">Tester</div>"#;
    let mut ctx = RuleVariableContext::for_book(None, None);
    let book = parse_book_info_html(
        &source,
        body,
        "https://books.example/detail/1",
        &source.rule_book_info.clone().unwrap(),
        "https://books.example/detail/1",
        &mut ctx,
            &mut host,
        );
    assert_eq!(book.name, "Book-Alias");
    assert_eq!(book.author, "Tester");
}

#[test]
fn test_content_format_keep_img_and_double_braces() {
    let mut host = host();
    let engine = RuleEngine::new().unwrap();
    let source = BookSource {
        book_source_name: "起步新榜（优）".to_string(),
        book_source_url: "DragonQuestQBqqnb".to_string(),
        rule_content: Some(ContentRule {
            content: Some("<p>{{$.data.Content[0].Content}}</p>".to_string()),
            ..Default::default()
        }),
        ..Default::default()
    };
    let body = r#"{
        "ret": 0,
        "data": {
            "Content": [{
                "Content": [
                    "“李珞！你这也太过分了！赶紧给班长道歉！”\r\n  “就是啊，溪溪好心想要给你最后冲刺一下，你不领情也就算了，推人干嘛？”\r\n  “当然！”"
                ]
            }]
        }
    }"#;

    let content = engine.content(&source, body, "https://novel.html5.qq.com", &mut host);
    assert_eq!(
        content,
        "“李珞！你这也太过分了！赶紧给班长道歉！”\n“就是啊，溪溪好心想要给你最后冲刺一下，你不领情也就算了，推人干嘛？”\n“当然！”"
    );
}

#[test]
fn compat_javascript_receives_book_chapter_and_title_bindings() {
    let mut host = host();
    let source = BookSource {
        rule_toc: Some(TocRule {
            chapter_list: Some(
                r#"js:JSON.stringify([{chapterName:'Original',chapterUrl:'/one',variable:'{"cid":"C"}'}])"#
                    .to_string(),
            ),
            chapter_name: Some("chapterName".to_string()),
            chapter_url: Some("chapterUrl".to_string()),
            format_js: Some("book.variableMap.bid + '/' + chapter.variableMap.cid + '/' + title".to_string()),
            ..Default::default()
        }),
        rule_content: Some(ContentRule {
            content: Some("js:book.variableMap.bid + '/' + chapter.variableMap.cid + '/' + title".to_string()),
            ..Default::default()
        }),
        ..Default::default()
    };
    let engine = RuleEngine::new().unwrap();
    let book_variable = r#"{"bid":"B"}"#;
    let (chapters, _) = engine.chapter_list_with_variable(
        &source,
        "<html></html>",
        "https://books.example/toc",
        Some(book_variable),
        Some("Book"),
            &mut host,
        );
    assert_eq!(chapters.len(), 1);
    assert_eq!(chapters[0].title, "B/C/Original");
    assert_eq!(
        engine.content_with_variables(
            &source,
            "<html></html>",
            "https://books.example/chapter/1",
            Some(book_variable),
            chapters[0].variable.as_deref(),
            Some("Book"),
            Some(&chapters[0].title),
            &mut host,
        ),
        "B/C/B/C/Original"
    );
}

#[test]
fn compat_content_replacement_reads_scoped_variables() {
    let mut host = host();
    let source = BookSource {
        rule_content: Some(ContentRule {
            content: Some(".text@text".to_string()),
            replace_regex: Some("##{{@get:{pattern}}}##X".to_string()),
            ..Default::default()
        }),
        ..Default::default()
    };
    let output = RuleEngine::new().unwrap().content_with_variables(
        &source,
        r#"<div class="text">ABAC</div>"#,
        "https://books.example/chapter/1",
        Some(r#"{"pattern":"A"}"#),
        None,
        Some("Book"),
        Some("Chapter"),
            &mut host,
        );
    assert_eq!(output, "XBXC");
}

#[test]
fn test_content_comic_js_get_string_and_aes_decode() {
    let mut host = host();
    let engine = RuleEngine::new().unwrap();
    let source = BookSource {
        book_source_name: "全免漫画（优）".to_string(),
        book_source_url: "https://api-cdn.kaimanhua.com/".to_string(),
        rule_content: Some(ContentRule {
            content: Some(
                r#"<js>
result=String(java.getString("$.data")).replace(/arsadata/,"");
u=java.aesBase64DecodeToString(result,"4548ded8c9e02690","AES/CBC/PKCS5Padding","1992360ee9bc4f8f");
img=u.match(/\[(.*)\]/)[1].split(",").map(x=>'\n<img src='+x+'>').join("\n")
</js>"#
                    .to_string(),
            ),
            ..Default::default()
        }),
        ..Default::default()
    };
    let body = r#"{"data":"arsadataI3j2wv8QgjqgVWTZ7b+iuTNgOpkoIWewfuKkbsdwz1TfkSIzFHBDmZs+KQVExU+qxB7UfJf/z38gew7KMuqrwA==","status":0,"message":"ok"}"#;

    let script = r#"
result=String(java.getString("$.data")).replace(/arsadata/,"");
u=java.aesBase64DecodeToString(result,"4548ded8c9e02690","AES/CBC/PKCS5Padding","1992360ee9bc4f8f");
img=u.match(/\[(.*)\]/)[1].split(",").map(x=>'\n<img src='+x+'>').join("\n")
"#;
    let js_res = run_js(script, body, "https://api-cdn.kaimanhua.com");
    assert!(js_res.is_ok());

    let content = engine.content(&source, body, "https://api-cdn.kaimanhua.com", &mut host);
    assert!(content.contains(r#"<img src="https://example.com/1.jpg">"#));
    assert!(content.contains(r#"<img src="https://example.com/2.jpg">"#));
}

#[test]
fn java_importer_supports_legado_hmac_sha1_fixture() {
    let script = r#"
        var aly = new JavaImporter(
            Packages.javax.crypto.Mac,
            Packages.javax.crypto.spec.SecretKeySpec,
            Packages.javax.xml.bind.DatatypeConverter,
            Packages.java.net.URLEncoder,
            Packages.java.lang.String,
            Packages.android.util.Base64
        );
        with (aly) {
            function percentEncode(value) {
                return URLEncoder.encode(value, "UTF-8")
                    .replace("+", "%20")
                    .replace("*", "%2A")
                    .replace("%7E", "~");
            }
            function sign(stringToSign, accessKeySecret) {
                var mac = Mac.getInstance("HmacSHA1");
                mac.init(new SecretKeySpec(
                    String(accessKeySecret + "&").getBytes("UTF-8"), "HmacSHA1"));
                var signData = mac.doFinal(String(stringToSign).getBytes("UTF-8"));
                var signBase64 = Base64.encodeToString(signData, Base64.NO_WRAP);
                return percentEncode(signBase64);
            }
        }
        sign("reader", "secret");
    "#;
    assert_eq!(
        run_js(script, "", "https://example.com").unwrap(),
        "%2BziHIM45rqfvezm%2F4BidN45XHvo%3D"
    );
}

#[test]
fn base64_shims_preserve_byte_array_semantics() {
    let script = r#"
        const bytes = [97, 98, 99];
        const standard = android.util.Base64.encodeToString(
            bytes, android.util.Base64.NO_WRAP);
        const decoded = java.util.Base64.getDecoder().decode(standard).join(',');
        const urlSafe = java.util.Base64.getUrlEncoder()
            .withoutPadding()
            .encodeToString([251, 255]);
        [standard, decoded, urlSafe].join('|');
    "#;
    assert_eq!(
        run_js(script, "", "https://example.com").unwrap(),
        "YWJj|97,98,99|-_8"
    );
}

#[test]
fn compat_jsoup_subset_supports_select_collection_and_element_methods() {
    let script = r#"
        var doc = org.jsoup.Jsoup.parse(result);
        var items = doc.select('ul.volume-chapters li.chapter-li:not(.volume-cover)');
        var output = [];
        for (var i = 0; i < items.size(); i++) {
            var item = items.get(i);
            var link = item.select('a').first();
            output.push({
                title: link ? link.text() : '',
                url: link ? link.attr('href') : '',
                isVolume: item.hasClass('chapter-bar')
            });
        }
        JSON.stringify(output);
    "#;
    let body = r#"<ul class="volume-chapters">
        <li class="chapter-li"><a href="/chapter/1">Chapter 1</a></li>
        <li class="chapter-li chapter-bar"><a href="/volume/1">Volume 1</a></li>
        <li class="chapter-li volume-cover"><a href="/cover">Cover</a></li>
    </ul>"#;

    let output = run_js(script, body, "https://source.example").unwrap();
    let items = serde_json::from_str::<Vec<serde_json::Value>>(&output).unwrap();

    assert_eq!(items.len(), 2, "Jsoup output: {output}");
    assert_eq!(items[0]["title"], "Chapter 1");
    assert_eq!(items[0]["url"], "/chapter/1");
    assert_eq!(items[0]["isVolume"], false);
    assert_eq!(items[1]["isVolume"], true);
}

#[test]
fn toc_refresh_shims_are_rejected_outside_pre_update_context() {
    assert!(run_js("java.reGetBook()", "", "https://example.com").is_err());
    assert!(run_js("java.refreshTocUrl()", "", "https://example.com").is_err());
}

#[test]
fn compat_java_set_content_and_get_elements_support_json_and_html() {
    let script = r#"
        java.setContent(JSON.stringify({data:{list:[{name:'first'},{name:'last'}]}}));
        const list = java.getElements('$.data.list[*]').toArray();
        const last = java.getElement('$.data.list[-1]');
        const firstName = java.getString('$.data.list[0].name');
        java.setContent('<div><p id="p1"><b>one</b></p><p id="p2">two</p></div>');
        const paragraphs = java.getElements('@@tag.p').toArray();
        [list[0].name, last.name, firstName, paragraphs[0].attr('id'),
         paragraphs[0].html(), paragraphs[0].text()].join('|')
    "#;
    let result = run_js(script, "", "https://example.com").unwrap();
    assert_eq!(result, "first|last|first|p1|<b>one</b>|one");
}

#[test]
fn compat_java_get_elements_supports_xpath_element_chaining() {
    let body = r#"<div id="catalog"><a href="/ch1" class="c-link">Chapter One</a><a href="/ch2" class="c-link">Chapter Two</a></div>"#;
    let script = r#"
        const items = java.getElements('//div[@id="catalog"]//a', result);
        const first = items.first();
        const last = items.get(1);
        [items.size(), first.attr('href'), first.text(), first.hasClass('c-link'), last.attr('href'), last.text()].join('|')
    "#;
    let output = run_js(script, body, "https://example.com").unwrap();
    assert_eq!(output, "2|/ch1|Chapter One|true|/ch2|Chapter Two");
}

#[test]
fn compat_java_get_elements_advanced_xpath_chaining() {
    let body = r#"
        <div id="catalog">
            <div class="header">
                <img src="/cover.jpg" alt="Cover Image" />
                <span class="count">Total: 2</span>
            </div>
            <ul class="chapters">
                <li><a href="/ch1" class="c-link">Chapter One</a></li>
                <li><a href="/ch2" class="c-link">Chapter Two</a></li>
            </ul>
        </div>
        <div id="footer">The End</div>
    "#;
    let script = r#"
        const root = java.getElement('id("catalog")', result);
        const img = root.select('.//img').first();
        const links = root.select('.//ul/li/a');
        const footer = java.getElement('id("footer")', result);
        const missing = java.getElement('id("nonexistent")', result);

        [
            root.attr('id'),
            img.attr('src'),
            img.attr('alt'),
            links.size(),
            links.get(0).attr('href'),
            links.get(0).text(),
            links.get(1).attr('href'),
            links.get(1).text(),
            footer.text(),
            missing === null
        ].join('|')
    "#;
    let output = run_js(script, body, "https://example.com").unwrap();
    assert_eq!(
        output,
        "catalog|/cover.jpg|Cover Image|2|/ch1|Chapter One|/ch2|Chapter Two|The End|true"
    );
    let script_attrs = r#"
        const hrefs = java.getElements('//ul[@class="chapters"]//a/@href', result);
        const texts = java.getElements('//ul[@class="chapters"]//a/text()', result);
        [hrefs.size(), hrefs.get(0), hrefs.get(1), texts.size(), texts.get(0), texts.get(1)].join('|')
    "#;
    let output_attrs = run_js(script_attrs, body, "https://example.com").unwrap();
    assert_eq!(output_attrs, "2|/ch1|/ch2|2|Chapter One|Chapter Two");
    let script_mixed = r#"
        const catalog = java.getElement('//div[@id="catalog"]', result);
        const span = catalog.select('span.count').first();
        const link = catalog.select('ul li a').first();
        [span.text(), span.attr('class'), link.attr('href')].join('|')
    "#;
    let output_mixed = run_js(script_mixed, body, "https://example.com").unwrap();
    assert_eq!(output_mixed, "Total: 2|count|/ch1");
    let script_strings = r#"
        const footer = java.getString('id("footer")/text()', result);
        const hrefs = java.getStringList('id("catalog")//a/@href', result);
        [footer, hrefs.join(',')].join('|')
    "#;
    let output_strings = run_js(script_strings, body, "https://example.com").unwrap();
    assert_eq!(output_strings, "The End|/ch1,/ch2");
}

#[test]
fn nashorn_java_importer_decrypts_aes_payload() {
    let key = "242ccb8230d709e1";
    let iv = "0123456789abcdef";
    let plaintext = "本地解析正文测试";
    let standard = &base64::engine::general_purpose::STANDARD;
    let encrypted = base64::Engine::decode(
        standard,
        java_codec::java_aes_base64_encode(plaintext, key, "AES/CBC/PKCS5Padding", iv),
    )
    .unwrap();
    let mut payload = iv.as_bytes().to_vec();
    payload.extend(encrypted);
    let encoded = base64::Engine::encode(standard, payload);
    let script = format!(
        r#"
            var javaImport = new JavaImporter();
            javaImport.importPackage(Packages.java.lang, Packages.javax.crypto.spec,
                Packages.javax.crypto, Packages.java.util);
            with (javaImport) {{
                function decode(content) {{
                    var ivEncData = Base64.getDecoder().decode(String(content));
                    var key = SecretKeySpec(String("{key}").getBytes(), "AES");
                    var iv = IvParameterSpec(Arrays.copyOfRange(ivEncData, 0, 16));
                    var cipher = Cipher.getInstance("AES/CBC/PKCS5Padding");
                    cipher.init(2, key, iv);
                    return String(cipher.doFinal(Arrays.copyOfRange(ivEncData, 16, ivEncData.length)));
                }}
            }}
            decode("{encoded}");
        "#
    );
    assert_eq!(
        run_js(&script, "", "https://example.com").unwrap(),
        plaintext
    );
}

#[test]
fn low_risk_compat_apis_cover_headers_encodings_cache_and_utc_time() {
    let cache_key = format!("js-compat-{}", Uuid::new_v4());
    let script = format!(
        r#"
            const bytes = java.strToBytes('中文', 'GBK');
            const decoded = java.bytesToStr(bytes, 'GBK');
            const encoded = java.encodeURI('中文', 'GBK');
            const b64 = java.base64Decode('5Lit5paH', 'UTF-8');
            const hex = java.hexEncodeToString('reader');
            const hexBytes = java.hexDecodeToByteArray(hex).join(',');
            const hexText = java.hexDecodeToString(hex);
            const digestAlias = java.md5Encode16('reader') === java.md5To16('reader');
            const utc = java.timeFormatUTC(0, "yyyy-MM-dd HH:mm:ss.SSS", 28800000);
            cache.put('{cache_key}', 'cached', 60);
            const cached = cache.get('{cache_key}');
            const removed = cache.delete('{cache_key}');
            [decoded, encoded, b64, hex, hexBytes, hexText, digestAlias, utc,
             cached, removed, cache.get('{cache_key}') === null].join('|');
        "#
    );
    let output = run_js(&script, "", "https://example.com").unwrap();
    assert_eq!(
        output,
        "中文|%D6%D0%CE%C4|中文|726561646572|114,101,97,100,101,114|reader|true|1970-01-01 08:00:00.000|cached|true|true"
    );

    let mut cache = ScriptCache::new();
    cache.put("js-expired", "stale".to_string(), Some(1), 0);
    assert_eq!(cache.get("js-expired", 2000).is_none(), true);
}

#[test]
fn legado_android_compat_shims_use_session_and_safe_host_objects() {
    let initial = no_session();
    let script = r#"
        const preferences = context.getSharedPreferences('reader', context.MODE_PRIVATE);
        preferences.edit().putString('token', 'saved').apply();
        preferences.edit().putString('temporary', 'remove').commit();
        preferences.edit().remove('temporary').apply();
        const encoded = URLEncoder.encode('reader rust');
        const decoded = URLDecoder.decode(encoded);
        const base64 = java.util.Base64.getEncoder().encodeToString('reader');
        const decodedBase64 = java.bytesToStr(
            android.util.Base64.decode(base64, android.util.Base64.DEFAULT), 'UTF-8');
        const uuid = UUID.randomUUID().toString();
        const javaUuid = java.util.UUID.randomUUID().toString();
        const helperUuid = java.randomUUID();
        if (preferences.getString('token', '') !== 'saved' ||
            preferences.getString('temporary', 'fallback') !== 'fallback' ||
            decoded !== 'reader rust' || decodedBase64 !== 'reader' ||
            uuid.length !== 36 || javaUuid.length !== 36 || helperUuid.length !== 36 ||
            System.currentTimeMillis() <= 0 ||
            !application || !context || !activity || !app ||
            !android.util.Log || Log.d('compat', 'ok') !== 0) {
            throw new Error('compatibility shim failed');
        }
        'OK'
    "#;
    let mut host = host();
    host.begin(Some(&initial), "https://example.com");
    let result = eval_js(script, "", "https://example.com", &mut host).unwrap();
    let delta = host.end();
    assert_eq!(result, "OK");
    assert_eq!(
        text_of(member(&delta.unwrap().variables.unwrap(), "__prefs:reader:token")),
        "\"saved\""
    );
}

#[test]
fn compat_cookie_get_key_reads_session_cookie_values() {
    let initial = ExecuteSession {
        cookies: Some("sid=initial_token; token=a=b=c".to_string()),
        ..no_session()
    };
    let mut host = host();
    host.begin(Some(&initial), "https://example.com");
    let result = eval_js(
        "[cookie.getKey('example.com', 'sid'), cookie.getKey('https://example.com/path', 'token'), cookie.getKey('example.com', 'missing')].join('|')",
        "",
        "https://example.com",
        &mut host,
    )
    .unwrap();

    assert_eq!(result, "initial_token|a=b=c|");
}

#[test]
fn java_get_reads_legado_book_and_chapter_variable_scopes() {
    let bindings = vec![
        (
            "book".to_string(),
            value(
                r#"{
                "name": "Book",
                "variableMap": {
                    "bookOnly": "book-value",
                    "shadowed": "book-value",
                    "headers": "{\"headers\":{\"X-Test\":\"ok\"}}"
                }
            }"#,
            ),
        ),
        (
            "chapter".to_string(),
            value(
                r#"{
                "title": "Chapter",
                "variableMap": {
                    "chapterOnly": "chapter-value",
                    "shadowed": "chapter-value"
                }
            }"#,
            ),
        ),
        ("title".to_string(), value("\"Chapter\"")),
    ];

    let result = eval_js_with_bindings(
        "[java.get('bookOnly'), java.get('chapterOnly'), java.get('shadowed'), java.get('headers'), java.get('bookName'), java.get('title')].join('|')",
        "",
        "https://example.com",
        bindings,
        &mut host(),
    )
    .unwrap();
    assert_eq!(
        result,
        r#"book-value|chapter-value|chapter-value|{"headers":{"X-Test":"ok"}}|Book|Chapter"#
    );
}

#[test]
fn test_js_session_bindings() {
    let initial = ExecuteSession {
        cookies: Some("sid=initial_token".to_string()),
        header: Some(value(r#"{"Authorization": "Bearer init_auth"}"#)),
        variables: Some(vec![("myVar".to_string(), value("\"initial_val\""))]),
    };
    let mut host = host();
    host.begin(Some(&initial), "https://example.com/books");

    let res = eval_js("source.getVariable('myVar')", "", "https://example.com", &mut host).unwrap();
    assert_eq!(res, "initial_val");

    let res = eval_js(
        "source.setVariable('myVar', 'updated_val')",
        "",
        "https://example.com",
        &mut host,
    )
    .unwrap();
    assert_eq!(res, "updated_val");

    let h = eval_js("source.getLoginHeader()", "", "https://example.com", &mut host).unwrap();
    assert!(h.contains("init_auth"));

    eval_js(
        r#"source.putLoginHeader(JSON.stringify({Cookie: "sid=refreshed_token"}))"#,
        "",
        "https://example.com",
        &mut host,
    )
    .unwrap();

    let c = eval_js(
        "cookie.getCookie('https://example.com')",
        "",
        "https://example.com",
        &mut host,
    )
    .unwrap();
    assert!(c.contains("sid=refreshed_token"));

    let delta = host.end();
    assert!(delta.is_some());
    let delta = delta.unwrap();
    assert_eq!(delta.cookies, Some("sid=refreshed_token".to_string()));
    assert_eq!(
        text_of(member(delta.variables.as_ref().unwrap(), "myVar")),
        "\"updated_val\""
    );
}

#[test]
fn js_lib_json_object_loads_only_absolute_urls_and_uses_cache() {
    let fetched = Rc::new(RefCell::new(0));
    let count = fetched.clone();
    let mut host = host_with_site(Box::new(move |wire| {
        *count.borrow_mut() += 1;
        assert_eq!(wire.url, "http://libs.example/shared.js");
        Ok(response(&wire.url, 200, &[], b"globalThis.shared_lib=41;"))
    }));
    let url = "http://libs.example/shared.js";
    let js_lib = format!(
        r#"{{"remote":"{url}","inline":"throw new Error('inline value must be ignored')","relative":"/not-a-script.js"}}"#
    );
    let previous = host.swap_lib(Some(js_lib));
    assert_eq!(eval_js("shared_lib + 1", "", url, &mut host).unwrap(), "42");
    assert_eq!(eval_js("shared_lib + 1", "", url, &mut host).unwrap(), "42");
    host.swap_lib(previous);
    assert_eq!(*fetched.borrow(), 1);
    assert_eq!(
        java_net::compile_js_lib(&standalone_client(), r#"{"inline":"var notLoaded=1"}"#, &mut host).unwrap(),
        ""
    );
}

#[test]
fn java_connect_returns_str_response_for_http_and_transport_errors() {
    let engine = Engine::new().unwrap();
    let sent = Rc::new(RefCell::new(Vec::new()));
    let log = sent.clone();
    let url = "http://connect.example/connect";
    *engine.shared().site.borrow_mut() = Box::new(move |wire| {
        log.borrow_mut().extend(wire.headers.clone());
        Ok(response(
            &wire.url,
            418,
            &[("content-type", "application/json"), ("x-connect", "yes")],
            b"denied",
        ))
    });
    *engine.shared().source.borrow_mut() =
        Some(BookSource { book_source_url: url.to_string(), ..Default::default() });
    let mut host = Host::new(engine);
    let script = format!(
        r#"
            const response = java.connect('{url}', {{'X-Request':'connect'}});
            [response.__ffiStrResponse, response.code(), response.message(),
             response.url(), response.body(), response.isSuccessful(),
             response.headers().get('x-connect'), response.raw().code(),
             String(response).includes('code=418')].join('|');
        "#
    );
    let result = eval_js(&script, "", url, &mut host).unwrap();
    assert_eq!(
        result,
        format!("true|418|I'm a teapot|{url}|denied|false|yes|418|true")
    );
    assert!(sent.borrow().iter().any(|(name, value)| name == "x-request" && value == "connect"));

    let invalid = eval_js(
        "(() => { const response = java.connect('ftp://invalid'); return [response.code(), response.message(), response.isSuccessful(), response.url(), response.body().length > 0, response.raw().code()].join('|'); })()",
        "",
        url,
        &mut host,
    )
    .unwrap();
    assert_eq!(invalid, "200|OK|true|http://localhost/|true|200");
}

#[test]
fn java_ajax_all_runs_sequentially_preserves_order_and_isolates_errors() {
    let engine = Engine::new().unwrap();
    let sent = Rc::new(RefCell::new(Vec::new()));
    let log = sent.clone();
    let first = "http://all.example/first";
    let last = "http://all.example/last";
    *engine.shared().site.borrow_mut() = Box::new(move |wire| {
        log.borrow_mut().push((wire.url.clone(), wire.headers.clone()));
        if wire.url.ends_with("/first") {
            Ok(response(&wire.url, 201, &[("set-cookie", "sid=ordered; Path=/")], b"first"))
        } else {
            Ok(response(&wire.url, 502, &[], b"last"))
        }
    });
    *engine.shared().source.borrow_mut() =
        Some(BookSource { book_source_url: first.to_string(), ..Default::default() });
    let result = eval_js(
        &format!(
            r#"(() => {{
                const responses = java.ajaxAll(['{first}', 'ftp://invalid', '{last}']);
                return [responses.length, responses[0].code(), responses[0].body(),
                    responses[1].code(), responses[1].isSuccessful(), responses[1].body().length > 0,
                    responses[2].code(), responses[2].body()].join('|');
            }})()"#
        ),
        "",
        first,
        &mut Host::new(engine),
    )
    .unwrap();
    assert_eq!(result, "3|201|first|200|true|true|502|last");

    let requests = sent.borrow();
    assert_eq!(requests[0].0, first);
    assert_eq!(requests[1].0, last);
    assert!(requests[1].1.contains(&("cookie".to_string(), "sid=ordered".to_string())));
}

#[test]
fn java_connect_and_ajax_all_follow_analyze_url_header_precedence() {
    let engine = Engine::new().unwrap();
    let sent = Rc::new(RefCell::new(Vec::new()));
    let log = sent.clone();
    *engine.shared().site.borrow_mut() = Box::new(move |wire| {
        log.borrow_mut().push((wire.method, wire.url.clone(), wire.headers.clone(), wire.body.clone()));
        Ok(response(&wire.url, 201, &[("content-type", "text/plain; charset=utf-8")], b"ok"))
    });
    let source_url = "http://order.example/source";
    *engine.shared().source.borrow_mut() = Some(BookSource {
        book_source_url: source_url.to_string(),
        header: Some(
            r#"js:globalThis.__sourceHeaderCounter=(globalThis.__sourceHeaderCounter||0)+1;JSON.stringify({"X-Source":String(globalThis.__sourceHeaderCounter),"X-Order":"source"})"#
                .to_string(),
        ),
        ..Default::default()
    });
    let url = serde_json::to_string(
        r#"/ajax,{"method":"POST","headers":{"X-Url":"configured","X-Order":"url"},"body":"payload","js":"result"}"#,
    )
    .unwrap();
    let script = format!(
        "(() => {{ globalThis.__sourceHeaderCounter = 0; const all = java.ajaxAll([{url}, {url}]); const one = java.connect({url}, {{'X-Order':'connect','X-Connect':'configured'}}); return [all[0].code(), all[1].code(), one.code(), all[0].body(), all[1].body(), one.body()].join('|'); }})()"
    );
    let result = eval_js(&script, "", source_url, &mut Host::new(engine)).unwrap();
    assert_eq!(result, "201|201|201|ok|ok|ok");

    let requests = sent.borrow();
    assert_eq!(requests.len(), 3);
    let has = |index: usize, name: &str, value: &str| {
        requests[index].2.iter().any(|(n, v)| n == name && v == value)
    };
    for index in 0..2 {
        assert_eq!(requests[index].0, Method::Post);
        assert_eq!(requests[index].1, "http://order.example/ajax");
        assert!(has(index, "x-source", &format!("{}", index + 1)));
        assert!(has(index, "x-url", "configured"));
        assert!(has(index, "x-order", "url"));
        assert_eq!(requests[index].3.as_deref(), Some("payload"));
    }
    assert_eq!(requests[2].0, Method::Post);
    assert!(!requests[2].2.iter().any(|(n, _)| n == "x-source"));
    assert!(has(2, "x-connect", "configured"));
    assert!(has(2, "x-url", "configured"));
    assert!(has(2, "x-order", "url"));
    assert_eq!(requests[2].3.as_deref(), Some("payload"));
}

#[test]
fn simple_http_methods_forward_optional_headers() {
    let sent = Rc::new(RefCell::new(Vec::new()));
    let log = sent.clone();
    let mut host = host_with_site(Box::new(move |wire| {
        log.borrow_mut().push((wire.method, wire.url.clone(), wire.headers.clone()));
        let body: &[u8] = if wire.method == Method::Head { b"" } else { b"ok" };
        let length = format!("{}", body.len());
        Ok(response(&wire.url, 200, &[("content-length", length.as_str())], body))
    }));
    let url = "http://simple.example/api";
    let result = eval_js(
        &format!(
            "(() => {{ const get = java.get('{url}', {{'X-Test':'get'}}); const post = java.post('{url}', 'body', {{'X-Test':'post'}}); const head = java.head('{url}', {{'X-Test':'head'}}); return [get.body(), get.statusCode(), post.body(), head.statusCode(), String(get), head.body(), get.headers().get('content-length')].join('|'); }})()"
        ),
        "",
        url,
        &mut host,
    )
    .unwrap();
    assert_eq!(result, "ok|200|ok|200|ok||2");

    let requests = sent.borrow();
    for (index, (method, name)) in
        [(Method::Get, "get"), (Method::Post, "post"), (Method::Head, "head")].iter().enumerate()
    {
        assert_eq!(requests[index].0, *method);
        assert_eq!(requests[index].1, url);
        assert!(requests[index].2.contains(&("x-test".to_string(), name.to_string())));
    }
}

fn test_source(header: Option<&str>) -> BookSource {
    BookSource {
        book_source_name: "URL compatibility".to_string(),
        book_source_url: "https://a.test".to_string(),
        header: header.map(str::to_owned),
        ..Default::default()
    }
}

#[test]
fn compat_url_compile_expands_key_page_and_headers() {
    let mut host = host();
    let source = test_source(None);
    let spec = analyze_url(
        "/search?q={{key}}&page=<1,2,3>,{\"headers\":{\"Referer\":\"https://a.test\"}}",
        "斗破",
        2,
        "https://a.test",
        &source,
        &mut host,
    )
    .unwrap();

    assert_eq!(
        spec.url,
        "https://a.test/search?q=%E6%96%97%E7%A0%B4&page=2"
    );
    assert!(spec.headers.iter().any(|(name, value)| {
        name.eq_ignore_ascii_case("referer") && value == "https://a.test"
    }));
}

#[test]
fn compat_url_rule_js_segments_and_templates() {
    let mut host = host();
    let source = test_source(None);
    let spec = analyze_url(
        "start<js>result + '-one'</js>@result<js>result + '-two'</js>@result",
        "keyword",
        1,
        "https://a.test",
        &source,
        &mut host,
    )
    .unwrap();
    assert_eq!(spec.url, "https://a.test/start-one-two");

    let spec = analyze_url(
        "@js:'https://a.test/search?q='+encodeURIComponent(key)",
        "a b",
        1,
        "https://a.test",
        &source,
        &mut host,
    )
    .unwrap();
    assert_eq!(spec.url, "https://a.test/search?q=a%20b");

    let spec = analyze_url(
        "js:'https://a.test/legacy'",
        "keyword",
        1,
        "https://a.test",
        &source,
        &mut host,
    )
    .unwrap();
    assert_eq!(spec.url, "https://a.test/legacy");

    let spec = analyze_url(
        "/search?q={{1 + 1}}&a={{'word'}}&empty={{null}}",
        "keyword",
        1,
        "https://a.test",
        &source,
        &mut host,
    )
    .unwrap();
    assert_eq!(spec.url, "https://a.test/search?q=2&a=word&empty=");
    assert_eq!(
        eval_js_url_template(
            "({value: 1})",
            "",
            "key",
            1,
            "https://a.test",
            "https://a.test",
            &mut host,
        )
        .unwrap(),
        "[object Object]"
    );
}

#[test]
fn compat_url_option_js_and_source_proxy() {
    let mut host = host();
    let source = test_source(Some(
        "@js:JSON.stringify({proxy:'http://source-proxy:8080', Referer:'https://source.test'})",
    ));
    let spec = analyze_url(
        "/search,{\"proxy\":\"http://option-proxy:8080\",\"js\":\"'/final'\"}",
        "key",
        1,
        "https://a.test",
        &source,
        &mut host,
    )
    .unwrap();
    assert_eq!(spec.url, "https://a.test/final");
    assert_eq!(spec.proxy.as_deref(), Some("http://option-proxy:8080"));
    assert!(!spec
        .headers
        .iter()
        .any(|(name, _)| name.eq_ignore_ascii_case("proxy")));
    assert!(spec
        .headers
        .iter()
        .any(|(name, _)| name.eq_ignore_ascii_case("user-agent")));
    assert!(spec.headers.iter().any(|(name, value)| {
        name.eq_ignore_ascii_case("referer") && value == "https://source.test"
    }));

    let spec = analyze_url("/search", "key", 1, "https://a.test", &source, &mut host).unwrap();
    assert_eq!(spec.proxy.as_deref(), Some("http://source-proxy:8080"));
}

#[test]
fn compat_url_escape_charset_and_form_encoding() {
    let mut host = host();
    let source = test_source(None);
    let query = analyze_url(
        "/search?q=中文, {\"charset\":\"escape\"}",
        "key",
        1,
        "https://a.test",
        &source,
        &mut host,
    )
    .unwrap();
    assert_eq!(query.url, "https://a.test/search?q=%u4E2D%u6587");

    let form = analyze_url(
        "/submit,{\"method\":\"POST\",\"body\":\"q=中文&title=a b\"}",
        "key",
        1,
        "https://a.test",
        &source,
        &mut host,
    )
    .unwrap();
    assert_eq!(form.body.as_deref(), Some("q=%E4%B8%AD%E6%96%87&title=a+b"));
    assert!(form.headers.iter().any(|(name, value)| {
        name.eq_ignore_ascii_case("content-type")
            && value == "application/x-www-form-urlencoded"
    }));

    let encoded = analyze_url(
        "/submit,{\"method\":\"POST\",\"body\":\"q=hello+world&x=%2F\"}",
        "key",
        1,
        "https://a.test",
        &source,
        &mut host,
    )
    .unwrap();
    assert_eq!(encoded.body.as_deref(), Some("q=hello+world&x=%2F"));

    let gbk_form = analyze_url(
        "/submit,{\"method\":\"POST\",\"charset\":\"gbk\",\"body\":\"q=中文\"}",
        "key",
        1,
        "https://a.test",
        &source,
        &mut host,
    )
    .unwrap();
    assert_eq!(gbk_form.body.as_deref(), Some("q=%D6%D0%CE%C4"));

    let escape_form = analyze_url(
        "/submit,{\"method\":\"POST\",\"charset\":\"escape\",\"body\":\"q=中文\"}",
        "key",
        1,
        "https://a.test",
        &source,
        &mut host,
    )
    .unwrap();
    assert_eq!(escape_form.body.as_deref(), Some("q=%u4E2D%u6587"));
}

#[test]
fn compat_url_json_body_charset_and_response_type() {
    let mut host = host();
    let source = test_source(None);
    let json = analyze_url(
        "/submit,{\"method\":\"POST\",\"body\":{\"q\":\"中文\"},\"charset\":\"gbk\",\"type\":\"hex\"}",
        "key",
        1,
        "https://a.test",
        &source,
        &mut host,
    )
    .unwrap();
    assert_eq!(json.body.as_deref(), Some(r#"{"q":"中文"}"#));
    assert_eq!(json.response_type.as_deref(), Some("hex"));
    assert!(json.headers.iter().any(|(name, value)| {
        name.eq_ignore_ascii_case("content-type") && value == "application/json"
    }));

    let xml = analyze_url(
        "/submit,{\"method\":\"POST\",\"body\":\"<root/>\"}",
        "key",
        1,
        "https://a.test",
        &source,
        &mut host,
    )
    .unwrap();
    assert_eq!(xml.body.as_deref(), Some("<root/>"));
    assert!(xml.headers.iter().any(|(name, value)| {
        name.eq_ignore_ascii_case("content-type") && value == "application/xml"
    }));

    assert_eq!(
        format_response_body(&b"<root/>".to_vec(), "<root/>".into(), Some("application/xml"), None),
        "<?xml version=\"1.0\"?><root/>"
    );
    assert_eq!(
        format_response_body(&vec![0, 255], String::new(), None, Some("hex")),
        "00ff"
    );
    assert_eq!(
        format_response_body(
            &b"<?xml version='1.0'?>".to_vec(),
            "<?xml version='1.0'?>".into(),
            Some("text/xml"),
            None
        ),
        "<?xml version='1.0'?>"
    );
}

fn text_member(value: &serde_json::Value, name: &str) -> Option<String> {
    value.get(name).and_then(|v| v.as_str()).map(|t| t.to_string())
}

fn search_rule(value: Option<&serde_json::Value>) -> Option<SearchRule> {
    value.map(|v| SearchRule {
        book_list: text_member(v, "bookList"),
        name: text_member(v, "name"),
        author: text_member(v, "author"),
        book_url: text_member(v, "bookUrl"),
        ..Default::default()
    })
}

/// The source that a JSON text describes.
fn source_of(text: &str) -> Result<BookSource, String> {
    let v: serde_json::Value = serde_json::from_str(text).map_err(|e| e.to_string())?;
    Ok(BookSource {
        book_source_name: text_member(&v, "bookSourceName").unwrap_or_default(),
        book_source_url: text_member(&v, "bookSourceUrl").unwrap_or_default(),
        search_url: text_member(&v, "searchUrl"),
        login_url: text_member(&v, "loginUrl"),
        login_ui: text_member(&v, "loginUi"),
        login_check_js: text_member(&v, "loginCheckJs"),
        rule_search: search_rule(v.get("ruleSearch")),
        rule_explore: search_rule(v.get("ruleExplore")),
        rule_book_info: v.get("ruleBookInfo").map(|r| BookInfoRule {
            name: text_member(r, "name"),
            author: text_member(r, "author"),
            ..Default::default()
        }),
        rule_toc: v.get("ruleToc").map(|r| TocRule {
            chapter_list: text_member(r, "chapterList"),
            chapter_name: text_member(r, "chapterName"),
            chapter_url: text_member(r, "chapterUrl"),
            next_toc_url: text_member(r, "nextTocUrl"),
            ..Default::default()
        }),
        rule_content: v.get("ruleContent").map(|r| ContentRule {
            content: text_member(r, "content"),
            next_content_url: text_member(r, "nextContentUrl"),
            ..Default::default()
        }),
        ..Default::default()
    })
}

/// The session that a request brings.
fn session_of(text: &str) -> Option<ExecuteSession> {
    let v: serde_json::Value = serde_json::from_str(text).ok()?;
    let s = v.get("session")?;
    if s.is_null() {
        return None;
    }
    Some(ExecuteSession { cookies: text_member(s, "cookies"), ..no_session() })
}

/// Carries out a request with the limits that are usual.
fn call(host: &mut Host<Engine>, source: &str, request: &str) -> serde_json::Value {
    call_with(host, source, request, ExecuteOptions::default(), Vec::new())
}

fn call_with(
    host: &mut Host<Engine>,
    source: &str,
    request: &str,
    options: ExecuteOptions,
    rules: Vec<ReplaceRule>,
) -> serde_json::Value {
    let decoded = Decoded {
        source: source_of(source),
        options: Ok(options),
        session: Ok(session_of(request)),
        replace_rules: Ok(rules),
    };
    serde_json::from_str(&execute(source, request, decoded, host)).unwrap()
}

#[test]
fn execute_rejects_unknown_operation_with_stable_envelope() {
    let result = call(
        &mut host(),
        r#"{"bookSourceName":"test","bookSourceUrl":"https://example.invalid"}"#,
        r#"{"api":2,"op":"unknown"}"#,
    );
    assert_eq!(result["ok"], false);
    assert_eq!(result["error"]["kind"], "invalid_request");
}

#[test]
fn execute_search_fetches_and_parses_in_the_so() {
    let base_url = "http://search.example";
    let mut host = host_with_site(Box::new(|wire| {
        assert_eq!(wire.url, "http://search.example/search?keyword=Rust&page=1");
        Ok(json_page(
            &wire.url,
            r#"{"data":[{"name":"Rust 搜索结果","author":"测试作者","url":"/book/1"}]}"#,
        ))
    }));
    let source = format!(
        r#"{{
            "bookSourceName": "FFI test source",
            "bookSourceUrl": "{base_url}",
            "searchUrl": "/search?keyword={{{{key}}}}&page={{{{page}}}}",
            "ruleSearch": {{
                "bookList": "$.data[*]",
                "name": "$.name",
                "author": "$.author",
                "bookUrl": "$.url"
            }}
        }}"#
    );
    let request = r#"{"api": 2, "op": "search", "params": {"key": "Rust", "page": 1}}"#;

    let result = call(&mut host, &source, request);
    assert_eq!(result["ok"], true, "{result}");
    assert_eq!(result["data"][0]["name"], "Rust 搜索结果");
    assert_eq!(result["data"][0]["bookUrl"], format!("{base_url}/book/1"));
}

/// A site with an explore page, a book, two pages of contents and two pages of
/// a chapter, the second of which needs the cookie of the first.
fn operation_site(wire: &Wire) -> Result<RawResponse, HttpClientError> {
    let path = wire.url.strip_prefix("http://fixture.example").unwrap();
    let has_cookie = wire.headers.iter().any(|(n, v)| n == "cookie" && v.contains("reader-session=ok"));
    Ok(match path {
        "/explore" => {
            json_page(&wire.url, r#"{"data":[{"name":"发现书","author":"作者","url":"/book/2"}]}"#)
        }
        "/info" => json_page(&wire.url, r#"{"data":{"name":"详情书","author":"详情作者"}}"#),
        "/toc/1" => json_page(
            &wire.url,
            r#"{"chapters":[{"title":"第一章","url":"/chapter/1.html"}],"next":"/toc/2"}"#,
        ),
        "/toc/2" => json_page(&wire.url, r#"{"chapters":[{"title":"第二章","url":"/chapter/2.html"}]}"#),
        "/chapter/1.html" => response(
            &wire.url,
            200,
            &[("content-type", "application/json; charset=utf-8"), ("set-cookie", "reader-session=ok")],
            r#"{"content":"第一页正文","next":"/chapter/1-2.html"}"#.as_bytes(),
        ),
        "/chapter/1-2.html" if has_cookie => json_page(&wire.url, r#"{"content":"第二页正文"}"#),
        "/chapter/1-2.html" => response(&wire.url, 403, &[], br#"{"error":"missing cookie"}"#),
        _ => response(&wire.url, 404, &[], br#"{"error":"not found"}"#),
    })
}

const OPERATION_SOURCE: &str = r#"{
    "bookSourceName": "all operation fixture",
    "bookSourceUrl": "http://fixture.example",
    "ruleExplore": {
        "bookList": "$.data[*]",
        "name": "$.name",
        "author": "$.author",
        "bookUrl": "$.url"
    },
    "ruleBookInfo": {
        "name": "$.data.name",
        "author": "$.data.author"
    },
    "ruleToc": {
        "chapterList": "$.chapters[*]",
        "chapterName": "$.title",
        "chapterUrl": "$.url",
        "nextTocUrl": "$.next"
    },
    "ruleContent": {
        "content": "$.content",
        "nextContentUrl": "$.next"
    }
}"#;

fn operation(host: &mut Host<Engine>, op: &str, url: &str) -> serde_json::Value {
    call(
        host,
        OPERATION_SOURCE,
        &format!(r#"{{"api": 2, "op": "{op}", "params": {{"url": "{url}"}}}}"#),
    )
}

#[test]
fn execute_supports_explore_info_toc_and_content_pagination() {
    let mut host = host_with_site(Box::new(operation_site));

    let explore = operation(&mut host, "explore", "/explore");
    assert_eq!(explore["ok"], true, "{explore}");
    assert_eq!(explore["data"][0]["name"], "发现书");

    let info = operation(&mut host, "info", "/info");
    assert_eq!(info["ok"], true, "{info}");
    assert_eq!(info["data"]["name"], "详情书");

    let toc = operation(&mut host, "toc", "/toc/1");
    assert_eq!(toc["ok"], true, "{toc}");
    assert_eq!(toc["data"]["chapters"].as_array().unwrap().len(), 2);
    assert_eq!(toc["data"]["pages"], 2);

    let content = operation(&mut host, "content", "/chapter/1.html");
    assert_eq!(content["ok"], true, "{content}");
    assert_eq!(content["data"]["content"], "第一页正文\n第二页正文");
    assert_eq!(content["data"]["pages"], 2);
}

#[test]
fn pages_are_numbered_and_limited() {
    let mut host = host_with_site(Box::new(operation_site));
    let toc = operation(&mut host, "toc", "/toc/1");
    assert_eq!(toc["data"]["chapters"][0]["index"], 0);
    assert_eq!(toc["data"]["chapters"][1]["index"], 1);
    assert_eq!(toc["data"]["chapters"][1]["url"], "http://fixture.example/chapter/2.html");
    assert_eq!(toc["data"]["truncated"], false);
    assert_eq!(toc["meta"]["finalUrl"], "http://fixture.example/toc/2");

    let limits = ExecuteOptions { max_pages: 1, debug: true, ..ExecuteOptions::default() };
    let toc = call_with(
        &mut host,
        OPERATION_SOURCE,
        r#"{"api": 2, "op": "toc", "params": {"url": "/toc/1"}}"#,
        limits,
        Vec::new(),
    );
    assert_eq!(toc["data"]["chapters"].as_array().unwrap().len(), 1);
    assert_eq!(toc["data"]["truncated"], true);
    assert_eq!(toc["meta"]["pages"], 1);
    assert_eq!(toc["meta"]["status"], 200);
    assert_eq!(toc["meta"]["debug"]["responseBytes"], 76);
}

#[test]
fn content_is_cleaned_by_the_rules_of_the_request() {
    let mut host = host_with_site(Box::new(operation_site));
    let rules = vec![
        ReplaceRule {
            is_enabled: true,
            is_regex: true,
            pattern: "第(.)页".to_string(),
            replacement: "P$1 ".to_string(),
        },
        ReplaceRule {
            is_enabled: false,
            is_regex: false,
            pattern: "正文".to_string(),
            replacement: "x".to_string(),
        },
        ReplaceRule {
            is_enabled: true,
            is_regex: false,
            pattern: "二".to_string(),
            replacement: "2".to_string(),
        },
    ];
    let content = call_with(
        &mut host,
        OPERATION_SOURCE,
        r#"{"api": 2, "op": "content", "params": {"url": "/chapter/1.html"}}"#,
        ExecuteOptions::default(),
        rules,
    );
    assert_eq!(content["data"]["content"], "P一正文\nP2正文");
}

#[test]
fn requests_that_cannot_be_carried_out_are_refused() {
    let source = r#"{"bookSourceName":"test","bookSourceUrl":"https://example.invalid"}"#;
    let refused = |request: &str| -> (String, String) {
        let result = call(&mut host(), source, request);
        assert_eq!(result["ok"], false, "{result}");
        (
            text_member(&result["error"], "kind").unwrap(),
            text_member(&result["error"], "message").unwrap(),
        )
    };
    let invalid = |message: &str| ("invalid_request".to_string(), message.to_string());
    assert_eq!(refused("[]"), invalid("request must be a JSON object"));
    assert_eq!(refused(r#"{"op":"search"}"#), invalid("api must be 2"));
    assert_eq!(refused(r#"{"api":2}"#), invalid("op is required"));
    assert_eq!(refused(r#"{"api":2,"op":"fly"}"#), invalid("unsupported op: fly"));
    assert_eq!(
        refused(r#"{"api":2,"op":"search","params":[]}"#),
        invalid("params must be a JSON object")
    );
    assert_eq!(refused(r#"{"api":2,"op":"search"}"#), invalid("params.key is required"));
    assert_eq!(
        refused(r#"{"api":2,"op":"search","params":{"key":"a","page":0}}"#),
        invalid("params.page must be a positive integer")
    );
    assert_eq!(
        refused(r#"{"api":2,"op":"search","params":{"key":"a"}}"#),
        ("url_rule".to_string(), "searchUrl is required".to_string())
    );
    assert!(refused("{").1.starts_with("invalid request JSON: "));

    let nameless = call(&mut host(), r#"{"bookSourceUrl":" "}"#, "{}");
    assert_eq!(nameless["error"]["kind"], "invalid_source");
    assert_eq!(nameless["error"]["message"], "bookSourceUrl is required");

    let limits = ExecuteOptions { timeout_ms: 120001, ..ExecuteOptions::default() };
    let slow = call_with(&mut host(), source, r#"{"api":2,"op":"search"}"#, limits, Vec::new());
    assert_eq!(slow["error"]["message"], "timeoutMs must be at most 120000");
}

#[test]
fn failed_fetches_are_reported_by_kind() {
    let report = |site: Site| -> serde_json::Value {
        let mut host = host_with_site(site);
        let result = operation(&mut host, "info", "/info");
        assert_eq!(result["ok"], false, "{result}");
        result["error"].clone()
    };
    let missing = report(Box::new(|wire| Ok(response(&wire.url, 404, &[], b"gone"))));
    assert_eq!(missing["kind"], "http_status");
    assert_eq!(missing["status"], 404);
    assert_eq!(missing["message"], "HTTP 404");

    let slow = report(Box::new(|_| Err(HttpClientError::Timeout("too slow".to_string()))));
    assert_eq!(slow["kind"], "timeout");
    assert_eq!(slow["url"], "http://fixture.example/info");

    let down = report(Box::new(|_| Err(HttpClientError::Network("down".to_string()))));
    assert_eq!(down["kind"], "network");

    let big = report(Box::new(|wire| Ok(response(&wire.url, 200, &[], &vec![b'a'; 8388609]))));
    assert_eq!(big["kind"], "response_too_large");
    assert_eq!(big["message"], "response exceeds 8388608 bytes");

    let refused = report(Box::new(|wire| Ok(response(&wire.url, 403, &[], b"no"))));
    assert_eq!(refused["kind"], "http_status");

    let unknown = report(Box::new(|wire| Ok(response(&wire.url, 401, &[], b"no"))));
    assert_eq!(unknown["kind"], "auth_required");
    assert_eq!(unknown["auth"]["mode"], "script");

    let guarded = report(Box::new(|wire| Ok(response(&wire.url, 503, &[("server", "Cloudflare")], b"no"))));
    assert_eq!(guarded["kind"], "waf_challenge");
    assert_eq!(guarded["auth"]["mode"], "cloudflare");
}

#[test]
fn execute_round_trips_cookie_session_between_calls() {
    let calls = Rc::new(RefCell::new(0));
    let count = calls.clone();
    let mut host = host_with_site(Box::new(move |wire| {
        let body = r#"{"data":[{"name":"Session 书","author":"测试作者","url":"/book/1"}]}"#;
        *count.borrow_mut() += 1;
        let has_cookie =
            wire.headers.iter().any(|(n, v)| n == "cookie" && v.contains("reader-session=roundtrip"));
        if *count.borrow() == 1 {
            Ok(response(
                &wire.url,
                200,
                &[("set-cookie", "reader-session=roundtrip; Path=/")],
                body.as_bytes(),
            ))
        } else if has_cookie {
            Ok(json_page(&wire.url, body))
        } else {
            Ok(response(&wire.url, 403, &[], br#"{"error":"missing cookie"}"#))
        }
    }));
    let source = r#"{
        "bookSourceName": "session round-trip fixture",
        "bookSourceUrl": "http://session.example",
        "searchUrl": "/search?keyword={{key}}",
        "ruleSearch": {
            "bookList": "$.data[*]",
            "name": "$.name",
            "author": "$.author",
            "bookUrl": "$.url"
        }
    }"#;

    let first = call(&mut host, source, r#"{"api": 2, "op": "search", "params": {"key": "Rust"}}"#);
    assert_eq!(first["ok"], true, "{first}");
    assert_eq!(first["session"]["cookies"], "reader-session=roundtrip");

    let second = call(
        &mut host,
        source,
        &format!(
            r#"{{"api": 2, "op": "search", "params": {{"key": "Rust"}}, "session": {}}}"#,
            first["session"]
        ),
    );
    assert_eq!(second["ok"], true, "{second}");
    assert_eq!(second["session"], serde_json::Value::Null);
}

#[test]
fn login_check_js_receives_and_can_replace_str_response() {
    let mut host = host_with_site(Box::new(|wire| Ok(json_page(&wire.url, r#"{"message":"before"}"#))));
    let check = r#"if (result.code() !== 200 || result.url().indexOf('http') !== 0 || result.headers().get('content-type').indexOf('application/json') < 0) throw new Error('bad StrResponse'); var response = result.toJSON(); response.body = JSON.stringify({message: 'after'}); response"#;
    let source = format!(
        r#"{{
            "bookSourceName": "login check fixture",
            "bookSourceUrl": "http://check.example",
            "loginCheckJs": {},
            "ruleBookInfo": {{"name": "$.message"}}
        }}"#,
        serde_json::to_string(check).unwrap()
    );
    let result = call(&mut host, &source, r#"{"api": 2, "op": "info", "params": {"url": "/book/1"}}"#);
    assert_eq!(result["ok"], true, "{result}");
    assert_eq!(result["data"]["name"], "after");
}

#[test]
fn login_script_exposes_credentials_through_source_helpers() {
    let source = r#"{
        "bookSourceName": "login script fixture",
        "bookSourceUrl": "https://login.example/",
        "loginUrl": "@js:function login() { return source.getLoginInfo().username + ':' + source.getLoginInfoMap().get('password'); }",
        "loginUi": "[{\"name\":\"username\",\"type\":\"text\"},{\"name\":\"password\",\"type\":\"password\"}]"
    }"#;
    let login = call(
        &mut host(),
        source,
        r#"{
            "api": 2,
            "op": "login",
            "params": {"values": {"username": "reader", "password": "secret"}}
        }"#,
    );
    assert_eq!(login["ok"], true, "{login}");
    assert_eq!(login["data"]["result"], "reader:secret");

    let form = call(&mut host(), source, r#"{"api":2,"op":"login_ui"}"#);
    assert_eq!(form["ok"], true, "{form}");
    assert_eq!(form["data"][1]["type"], "password");
}

#[test]
fn ordinary_login_url_is_reported_as_web_flow_without_http_fetch() {
    let source = r#"{
        "bookSourceName": "web login fixture",
        "bookSourceUrl": "https://catalog.example/books",
        "loginUrl": "/login"
    }"#;
    let result = call(&mut host(), source, r#"{"api":2,"op":"login","params":{"values":{}}}"#);
    assert_eq!(result["ok"], false, "{result}");
    assert_eq!(result["error"]["kind"], "auth_required");
    assert_eq!(result["error"]["auth"]["mode"], "web");
    assert_eq!(
        result["error"]["auth"]["loginUrl"],
        "https://catalog.example/login"
    );
}

fn no_extra() -> EvalExtra {
    EvalExtra { text: String::new(), books: None, source: Err(String::new()), rules: None }
}

#[test]
fn test_reader_eval_text_and_clean() {
    let input = "<div><p>段落一</p><ul><li>项A</li><li>项B</li></ul><br>尾部</div>";
    assert_eq!(
        reader_eval(input, "@text", no_extra(), &mut host()),
        "段落一\n项A\n项B\n尾部"
    );
    assert_eq!(
        reader_eval(input, "@clean", no_extra(), &mut host()),
        "<p>段落一</p><ul><li>项A</li><li>项B</li></ul><br>尾部"
    );
}

#[test]
fn single_rules_are_evaluated_by_their_form() {
    let page = r#"<div><p class="a">one</p><p class="b">two 22</p></div>"#;
    let eval = |input: &str, rule: &str| reader_eval(input, rule, no_extra(), &mut host());
    assert_eq!(eval("a b", "@encode"), "a%20b");
    assert_eq!(eval("a%20b", "@decode"), "a b");
    assert_eq!(eval("%FF", "@decode"), "");
    assert_eq!(eval(page, ".a@text"), r#"["one"]"#);
    assert_eq!(eval(page, "//p[@class='b']"), r#"["two 22"]"#);
    assert_eq!(eval("a1b2", r"##\d##-"), "a-b-");
    assert_eq!(eval(page, "js:result.length"), format!("{}", page.len()));
    assert_eq!(eval(page, "[1]"), page);
    assert_eq!(eval(page, ".b -##22##"), page.replace("22", ""));
    assert_eq!(eval("a1b2", "-##1## -##2##"), "ab");
    assert!(eval("", "js:throw new Error('x')").starts_with(r#"{"error":"JS Eval Failed: "#));
    assert_eq!(eval("[]", "@merge"), "[]");
    assert_eq!(
        reader_eval("{}", "@validate", EvalExtra { source: source_of("{}"), ..no_extra() }, &mut host()),
        r#"{"valid":false,"errors":["bookSourceUrl is empty","bookSourceName is empty"]}"#
    );
    let version = EvalExtra { text: "1.0".to_string(), ..no_extra() };
    assert_eq!(reader_eval("", "@version", version, &mut host()), "1.0");
}

#[test]
fn a_page_that_is_there_is_read_without_a_request() {
    let source = OPERATION_SOURCE;
    let read = |mode: &str, body: &str| -> serde_json::Value {
        let text =
            debug_parse(source, source_of(source), body, "http://fixture.example/x", mode, &mut host());
        serde_json::from_str(&text).unwrap()
    };
    let toc = read("toc", r#"{"chapters":[{"title":"一","url":"/1"}],"next":"/toc/2"}"#);
    assert_eq!(toc["result"]["chapters"][0]["title"], "一");
    assert_eq!(toc["result"]["nextUrls"][0], "http://fixture.example/toc/2");
    let content = read("content", r#"{"content":"text"}"#);
    assert_eq!(content["result"]["content"], "text");
    assert_eq!(content["result"]["nextUrl"], serde_json::Value::Null);
    assert_eq!(read("dance", "")["result"]["error"], "unknown mode: dance");
    let broken = debug_parse("{", Err("x".to_string()), "", "", "toc", &mut host());
    assert!(broken.starts_with(r#"{"error":"Invalid Source JSON: "#));
}

#[test]
fn a_request_is_tried_again_after_an_error_of_the_server() {
    let calls = Rc::new(RefCell::new(0));
    let count = calls.clone();
    let mut host = host_with_site(Box::new(move |wire| {
        *count.borrow_mut() += 1;
        if *count.borrow() < 3 {
            Ok(response(&wire.url, 500, &[], b"busy"))
        } else {
            Ok(response(&wire.url, 200, &[("x-a", "1"), ("x-a", "2")], b"done"))
        }
    }));
    let spec = RequestSpec {
        url: "http://retry.example/".to_string(),
        method: Method::Get,
        headers: Vec::new(),
        body: None,
        charset: None,
        retry: 9,
        proxy: None,
        response_type: None,
    };
    let session = HttpSession::new(&BookSource::default(), 0);
    let reply = session.fetch(&spec, 100, &mut host).unwrap();
    assert_eq!(reply.body, "done");
    assert_eq!(reply.headers, vec![("x-a".to_string(), "1, 2".to_string())]);
    assert_eq!(*calls.borrow(), 3);

    let mut host = host_with_site(Box::new(|wire| Ok(response(&wire.url, 500, &[], b"busy"))));
    let error = session.fetch(&spec, 100, &mut host).unwrap_err();
    assert!(matches!(error, FetchError::HttpStatus { status: 500, .. }));
}

#[test]
fn a_script_within_a_script_leaves_its_scope() {
    let script = r#"
        const inner = java.getString("js:result = 'changed'; key = 'k'; result + baseUrl", "given");
        [inner, result, typeof key, baseUrl].join('|')
    "#;
    assert_eq!(
        run_js(script, "outer", "https://a.test").unwrap(),
        "changedhttps://a.test|outer|undefined|https://a.test"
    );
}

#[test]
fn values_of_scripts_become_texts() {
    assert_eq!(run_js("1 + 1", "", "").unwrap(), "2");
    assert_eq!(run_js("({a: 1})", "", "").unwrap(), r#"{"a":1}"#);
    assert_eq!(run_js("result = 'left'; undefined", "in", "").unwrap(), "left");
    assert_eq!(run_js("null", "in", "").unwrap(), "in");
    let other = || ScriptValue::Other { json: Some("{}".to_string()), string: "[object Object]".to_string() };
    assert_eq!(script_text(other(), ScriptValue::Nothing, true), "[object Object]");
    assert_eq!(script_text(other(), ScriptValue::Nothing, false), "{}");
    assert_eq!(script_text(ScriptValue::Nothing, other(), false), "{}");
    assert_eq!(script_text(ScriptValue::Nothing, other(), true), "");
}

#[test]
fn scripts_see_what_their_call_gives_them() {
    let mut host = host_with_site(Box::new(|wire| Ok(response(&wire.url, 200, &[], b"sent"))));
    assert_eq!(eval_js_template("1 + 1", "in", "https://a.test", &mut host).unwrap(), "2");
    assert_eq!(eval_js_template("result + '@' + baseUrl", "in", "https://a.test", &mut host).unwrap(), "in@https://a.test");
    assert_eq!(
        eval_js_search_with_source("key + page + source.getKey()", "word", 3, "https://source.test", &mut host).unwrap(),
        "word3https://source.test"
    );
    let client = standalone_client();
    assert_eq!(
        java_net::java_request_simple(&client, "GET", "https://a.test/x", None, "{}", &mut host).ok(),
        Some("sent".to_string())
    );
    assert!(java_net::java_request_simple(&client, "GET", "no address", None, "", &mut host).is_err());
}

#[test]
fn a_proxy_that_is_none_is_told_first() {
    let sent = Rc::new(RefCell::new(Vec::new()));
    let log = sent.clone();
    let mut host = host_with_site(Box::new(move |wire| {
        log.borrow_mut().push(wire.proxy.clone());
        Ok(response(&wire.url, 200, &[], b"done"))
    }));
    let request = |proxy: &str, name: &str| RequestSpec {
        url: "http://proxied.example/".to_string(),
        method: Method::Get,
        headers: vec![(name.to_string(), "1".to_string())],
        body: None,
        charset: None,
        retry: 2,
        proxy: Some(proxy.to_string()),
        response_type: None,
    };
    let session = HttpSession::new(&BookSource::default(), 0);
    let error = session.fetch(&request("ftp://p.example", "a b"), 100, &mut host).unwrap_err();
    assert!(matches!(error, FetchError::InvalidUrl(_)));
    let error = session.fetch(&request("http://p.example:80", "a b"), 100, &mut host).unwrap_err();
    assert!(matches!(error, FetchError::Network(_)));
    assert!(sent.borrow().is_empty());
    session.fetch(&request("http://p.example:80", "x-a"), 100, &mut host).unwrap();
    assert_eq!(*sent.borrow(), vec![Some("http://p.example:80".to_string())]);
}

#[test]
fn a_session_that_a_request_does_not_change_is_not_handed_back() {
    let mut host = host_with_site(Box::new(|wire| {
        assert!(wire.headers.iter().any(|(n, v)| n == "cookie" && v == "sid=1"));
        Ok(json_page(&wire.url, r#"{"data":[]}"#))
    }));
    let source = r#"{
        "bookSourceName": "quiet",
        "bookSourceUrl": "http://quiet.example",
        "searchUrl": "/search?q={{key}}",
        "ruleSearch": {"bookList": "$.data[*]", "name": "$.name"}
    }"#;
    let request = r#"{"api": 2, "op": "search", "params": {"key": "x"}, "session": {"cookies": "sid=1"}}"#;
    let answer = call(&mut host, source, request);
    assert_eq!(answer["session"], serde_json::Value::Null);
    assert!(host.end().is_none());
}

#[test]
fn scripts_and_the_rules_that_they_evaluate_see_one_session() {
    let mut host = host_with_site(Box::new(|wire| {
        let cookie = wire.headers.iter().find(|(n, _)| n == "cookie").map(|(_, v)| v.clone());
        Ok(response(&wire.url, 200, &[("set-cookie", "b=2; Path=/")], cookie.unwrap_or_default().as_bytes()))
    }));
    let url = "http://one.example/";
    let initial = ExecuteSession { cookies: Some("a=1".to_string()), ..no_session() };
    host.begin(Some(&initial), url);
    let result = eval_js(
        "source.setVariable('k', 'outer'); var seen = java.getString(\"@js:source.setVariable('k', source.getVariable('k') + '-inner')\", 'x'); [seen, source.getVariable('k'), java.ajax('http://one.example/'), cookie.getKey('http://one.example/', 'b')].join('|')",
        "",
        url,
        &mut host,
    )
    .unwrap();
    assert_eq!(result, "outer-inner|outer-inner|a=1|2");
    assert_eq!(host.get_variable("k").map(|v| text_of(&v)).as_deref(), Some("\"outer-inner\""));
    let delta = host.end().unwrap();
    assert_eq!(text_of(member(&delta.variables.unwrap(), "k")), "\"outer-inner\"");
    assert!(delta.cookies.unwrap().contains("b=2"));
    assert_eq!(host.cookies(url), None);
}
