//! Logins: what a source asks for, the scripts that log in and that check a
//! response, and the errors that ask the reader to log in.

use crate::crawler::http::is_web_scheme;
use crate::crawler::response::{FaultV, FetchError, HttpResponse, HttpV};
use crate::crawler::url_rule::same_name;
use crate::executor::request::{
    error_of_fault, invalid_request, local_json, make_error, plain_error, report_fault, success_without_http, ErrorV,
    ExecuteError,
};
use crate::ext::json::{
    copy_json, integer_text, json_integer, json_of, json_read, json_text_of, json_to_text, lemma_array_model,
    lemma_object_model, member_models, member_of, parse_json, put, read_json, Json, JsonV,
};
use crate::ext::urls::{join_url, parse_url, url_joined, url_read};
use crate::ext::xml::pairs;
use crate::model::book_source::BookSource;
use crate::parser::field::{or_blank, text_or_blank};
use crate::parser::js::{called, page_call};
use crate::parser::rule_engine::{lib_restored, with_lib};
use crate::parser::script::{
    agrees, group_log, offline, opt_members, result_text, CallV, Host, Oracle, ScriptCall, ScriptEngine, World,
};
use crate::util::chars::{
    concat, contains, contains_text, copy, eq_ignore_ascii_case, is_empty_text, lower_ascii_of, opt_text,
    parse_unsigned, same, strip_prefix, strip_prefix_of, strip_suffix, strip_suffix_of, to_ascii_lowercase, trim,
    trim_of, unsigned_of, within,
};
use vstd::prelude::*;
use vstd::string::*;

verus! {

/// The script of a rule that is marked as one.
pub open spec fn script_of(rule: Seq<char>) -> Option<Seq<char>> {
    match strip_prefix_of(rule, "@js:"@) {
        Some(s) => Some(s),
        None => match strip_prefix_of(rule, "js:"@) {
            Some(s) => Some(s),
            None => match strip_prefix_of(rule, "<js>"@) {
                Some(s) => strip_suffix_of(s, "</js>"@),
                None => None,
            },
        },
    }
}

pub fn strip_js_prefix(rule: &str) -> (r: Option<String>)
    ensures
        opt_text(r) == script_of(rule@),
{
    if let Some(s) = strip_prefix(rule, "@js:") {
        return Some(s);
    }
    if let Some(s) = strip_prefix(rule, "js:") {
        return Some(s);
    }
    match strip_prefix(rule, "<js>") {
        Some(s) => strip_suffix(s.as_str(), "</js>"),
        None => None,
    }
}

/// Whether a text says that one is not logged in.
pub open spec fn asks_login(value: Seq<char>) -> bool {
    let t = lower_ascii_of(value);
    ||| contains_text(t, "请先登录"@)
    ||| contains_text(t, "请登录后"@)
    ||| contains_text(t, "尚未登录"@)
    ||| contains_text(t, "未登录"@)
    ||| contains_text(t, "登录失效"@)
    ||| contains_text(t, "登录过期"@)
    ||| contains_text(t, "需要登录"@)
    ||| contains_text(t, "login required"@)
    ||| contains_text(t, "please login"@)
    ||| contains_text(t, "not logged in"@)
    ||| contains_text(t, "unauthorized"@)
    ||| contains_text(t, "authentication required"@)
}

pub fn login_check_failed_text(value: &str) -> (r: bool)
    ensures
        r == asks_login(value@),
{
    let lower = to_ascii_lowercase(value);
    let t = lower.as_str();
    contains(t, "请先登录") || contains(t, "请登录后") || contains(t, "尚未登录") || contains(t, "未登录") || contains(
        t,
        "登录失效",
    ) || contains(t, "登录过期") || contains(t, "需要登录") || contains(t, "login required") || contains(t, "please login")
        || contains(t, "not logged in") || contains(t, "unauthorized") || contains(t, "authentication required")
}

/// Whether a login script reports that it failed.
pub open spec fn login_failed(value: Seq<char>) -> bool {
    same_name(trim_of(value), "false"@) || asks_login(value)
}

pub fn is_login_failure(value: &str) -> (r: bool)
    ensures
        r == login_failed(value@),
{
    eq_ignore_ascii_case(trim(value).as_str(), "false") || login_check_failed_text(value)
}

/// Whether a source has a login form: rows, or a script that makes them.
pub open spec fn has_form(raw: Seq<char>) -> bool {
    let t = trim_of(raw);
    t.len() > 0 && match json_of(t) {
        Some(JsonV::Array(rows)) => rows.len() > 0,
        Some(JsonV::Null) => false,
        _ => true,
    }
}

pub fn login_ui_configured(raw: &str) -> (r: bool)
    ensures
        r == has_form(raw@),
{
    broadcast use lemma_array_model;

    let t = trim(raw);
    if is_empty_text(t.as_str()) {
        return false;
    }
    match parse_json(t.as_str()) {
        Some(Json::Array(rows)) => {
            assert(json_of(t@) == Some(Json::Array(rows).model()));
            assert(crate::ext::json::json_models(rows@).len() == rows.len());
            rows.len() > 0
        },
        Some(Json::Null) => false,
        _ => true,
    }
}

/// An address of the web as it is written out; nothing where a text is none.
pub open spec fn web_address(text: Seq<char>) -> Option<Seq<char>> {
    match url_read(text) {
        Ok(u) => if is_web_scheme(u.scheme) {
            Some(u.href)
        } else {
            None
        },
        Err(_) => None,
    }
}

pub fn find_web_address(text: &str) -> (r: Option<String>)
    ensures
        opt_text(r) == web_address(text@),
{
    match parse_url(text) {
        Ok(u) => {
            if same(u.scheme.as_str(), "http") || same(u.scheme.as_str(), "https") {
                Some(u.href)
            } else {
                None
            }
        },
        Err(_) => None,
    }
}

/// The page that one logs in at, where it is not a script.
pub open spec fn login_page(source: BookSource) -> Option<Seq<char>> {
    let raw = trim_of(or_blank(opt_text(source.login_url)));
    if raw.len() == 0 || script_of(raw) is Some {
        None
    } else if url_read(raw) is Ok {
        web_address(raw)
    } else {
        match url_joined(source.book_source_url@, raw) {
            Some(Ok(t)) => web_address(t),
            _ => None,
        }
    }
}

pub fn login_text(source: &BookSource) -> (r: String)
    ensures
        r@ == trim_of(or_blank(opt_text(source.login_url))),
{
    proof {
        crate::util::chars::lemma_trim_len(seq![]);
    }
    match &source.login_url {
        Some(t) => trim(t.as_str()),
        None => {
            let r = String::new();
            assert(trim_of(seq![]) =~= seq![]);
            assert(r@ =~= seq![]);
            r
        },
    }
}

pub fn absolute_login_url(source: &BookSource) -> (r: Option<String>)
    ensures
        opt_text(r) == login_page(*source),
{
    let raw = login_text(source);
    if is_empty_text(raw.as_str()) || strip_js_prefix(raw.as_str()).is_some() {
        return None;
    }
    if parse_url(raw.as_str()).is_ok() {
        return find_web_address(raw.as_str());
    }
    match join_url(source.book_source_url.as_str(), raw.as_str()) {
        Some(Ok(t)) => find_web_address(t.as_str()),
        Some(Err(_)) => None,
        None => None,
    }
}

/// How a source wants a challenge to be met.
pub open spec fn login_mode(source: BookSource) -> Seq<char> {
    if has_form(or_blank(opt_text(source.login_ui))) {
        "form"@
    } else if script_of(trim_of(or_blank(opt_text(source.login_url)))) is Some {
        "script"@
    } else if login_page(source) is Some {
        "web"@
    } else {
        "script"@
    }
}

/// A failed fetch as the source has it: a login that is asked for says how one
/// logs in; a refusal by a source without a login is just a status.
pub open spec fn fault_for(source: BookSource, f: FaultV) -> ErrorV {
    match f {
        FaultV::AuthChallenge { kind, message, status, url, mode, login_url, action_url } => {
            let form = has_form(or_blank(opt_text(source.login_ui)));
            let configured = form || trim_of(or_blank(opt_text(source.login_url))).len() > 0;
            if kind == "auth_required"@ && status == Some(403u16) && !configured {
                error_of_fault(FaultV::HttpStatus { status: 403, url })
            } else {
                error_of_fault(
                    FaultV::AuthChallenge {
                        kind,
                        message,
                        status,
                        url,
                        mode: if kind == "auth_required"@ {
                            login_mode(source)
                        } else {
                            mode
                        },
                        login_url: match login_url {
                            Some(t) => Some(t),
                            None => login_page(source),
                        },
                        action_url,
                    },
                )
            }
        },
        other => error_of_fault(other),
    }
}

pub fn has_login_form(source: &BookSource) -> (r: bool)
    ensures
        r == has_form(or_blank(opt_text(source.login_ui))),
{
    proof {
        crate::util::chars::lemma_trim_len(seq![]);
    }
    match &source.login_ui {
        Some(t) => login_ui_configured(t.as_str()),
        None => false,
    }
}

/// Reports a failed fetch of a source.
pub fn map_fetch_error(error: FetchError, source: &BookSource) -> (r: ExecuteError)
    ensures
        r.model() == fault_for(*source, error.model()),
{
    match error {
        FetchError::AuthChallenge { kind, message, status, url, mode, login_url, action_url } => {
            let form = has_login_form(source);
            let login = login_text(source);
            let asked = same(kind.as_str(), "auth_required");
            let refused = match status {
                Some(n) => n == 403,
                None => false,
            };
            if asked && refused && !form && is_empty_text(login.as_str()) {
                return report_fault(FetchError::HttpStatus { status: 403, url });
            }
            let page = absolute_login_url(source);
            let mode = if !asked {
                mode
            } else if form {
                "form".to_owned()
            } else if strip_js_prefix(login.as_str()).is_some() {
                "script".to_owned()
            } else if page.is_some() {
                "web".to_owned()
            } else {
                "script".to_owned()
            };
            let login_url = match login_url {
                Some(t) => Some(t),
                None => page,
            };
            report_fault(
                FetchError::AuthChallenge { kind, message, status, url, mode, login_url, action_url },
            )
        },
        other => report_fault(other),
    }
}

/// The error that asks for a login.
pub open spec fn login_needed(source: BookSource, status: Option<u16>, url: Seq<char>, message: Seq<char>) -> ErrorV {
    fault_for(
        source,
        FaultV::AuthChallenge {
            kind: "auth_required"@,
            message,
            status,
            url,
            mode: "script"@,
            login_url: None,
            action_url: None,
        },
    )
}

pub fn auth_required_error(source: &BookSource, status: Option<u16>, url: &str, message: String) -> (r: ExecuteError)
    ensures
        r.model() == login_needed(*source, status, url@, message@),
{
    map_fetch_error(
        FetchError::AuthChallenge {
            kind: "auth_required".to_owned(),
            message,
            status,
            url: copy(url),
            mode: "script".to_owned(),
            login_url: None,
            action_url: None,
        },
        source,
    )
}

/// The error that sends the reader to a page to log in.
pub open spec fn web_login_needed(source: BookSource, url: Seq<char>, message: Seq<char>) -> ErrorV {
    error_of_fault(
        FaultV::AuthChallenge {
            kind: "auth_required"@,
            message,
            status: None,
            url: source.book_source_url@,
            mode: "web"@,
            login_url: web_address(url),
            action_url: None,
        },
    )
}

pub fn web_login_error(source: &BookSource, url: &str, message: String) -> (r: ExecuteError)
    ensures
        r.model() == web_login_needed(*source, url@, message@),
{
    report_fault(
        FetchError::AuthChallenge {
            kind: "auth_required".to_owned(),
            message,
            status: None,
            url: source.book_source_url.clone(),
            mode: "web".to_owned(),
            login_url: find_web_address(url),
            action_url: None,
        },
    )
}

/// A script that runs with the library of its source.
pub open spec fn source_call(source: BookSource, call: CallV, w: World, o: Oracle) -> (
    Result<Seq<char>, Seq<char>>,
    World,
) {
    lib_restored(called(call, with_lib(w, opt_text(source.js_lib)), o), w)
}

fn copy_lib(source: &BookSource) -> (r: Option<String>)
    ensures
        opt_text(r) == opt_text(source.js_lib),
{
    match &source.js_lib {
        Some(t) => Some(t.clone()),
        None => None,
    }
}

pub fn run_in_source<E: ScriptEngine>(
    source: &BookSource,
    script: &str,
    base_url: &str,
    bindings: Option<Vec<(String, Json)>>,
    host: &mut Host<E>,
) -> (r: Result<String, String>)
    ensures
        offline(old(host).log(), final(host).log()),
        forall|o: Oracle| #[trigger]
            agrees(final(host).log(), o) ==> source_call(
                *source,
                page_call(script@, seq![], base_url@, opt_members(bindings), false),
                old(host).world(),
                o,
            ) == (result_text(r), final(host).world()),
{
    broadcast use group_log;

    let saved = host.swap_lib(copy_lib(source));
    let input = String::new();
    assert(input@ =~= seq![]);
    let call = ScriptCall {
        script: copy(script),
        input: Some(input),
        base_url: Some(copy(base_url)),
        key: None,
        page: None,
        source_key: None,
        bindings,
        template: false,
        js_lib: None,
    };
    let r = host.eval(call);
    let _ = host.swap_lib(saved);
    r
}

pub open spec fn value_result(r: Result<Json, ExecuteError>) -> Result<JsonV, ErrorV> {
    match r {
        Ok(v) => Ok(v.model()),
        Err(e) => Err(e.model()),
    }
}

/// The login form of a source once its text is known.
pub open spec fn form_of_value(v: JsonV) -> Result<JsonV, ErrorV> {
    if v is Array {
        Ok(local_json(v))
    } else {
        Err(plain_error("parse"@, "loginUi must be an array"@))
    }
}

/// The login form of a source: rows in JSON, or a script that makes them.
pub open spec fn login_form(source: BookSource, w: World, o: Oracle) -> (Result<JsonV, ErrorV>, World) {
    let raw = trim_of(or_blank(opt_text(source.login_ui)));
    if raw.len() == 0 {
        (Ok(local_json(JsonV::Array(seq![]))), w)
    } else {
        match json_of(raw) {
            Some(v) => (form_of_value(v), w),
            None => {
                let script = match script_of(raw) {
                    Some(s) => s,
                    None => raw,
                };
                let x = source_call(source, page_call(script, seq![], source.book_source_url@, None, false), w, o);
                (
                    match x.0 {
                        Err(e) => Err(plain_error("parse"@, "loginUi JavaScript failed: "@ + e)),
                        Ok(t) => match json_read(t) {
                            Err(e) => Err(plain_error("parse"@, "loginUi must return a JSON array: "@ + e)),
                            Ok(v) => form_of_value(v),
                        },
                    },
                    x.1,
                )
            },
        }
    }
}

pub fn check_form(v: Json) -> (r: Result<Json, ExecuteError>)
    ensures
        value_result(r) == form_of_value(v.model()),
{
    match &v {
        Json::Array(_) => {},
        _ => {
            return Err(make_error("parse", "loginUi must be an array".to_owned()));
        },
    }
    Ok(success_without_http(v))
}

/// Answers with the login form of a source.
pub fn execute_login_ui<E: ScriptEngine>(source: &BookSource, host: &mut Host<E>) -> (r: Result<Json, ExecuteError>)
    ensures
        offline(old(host).log(), final(host).log()),
        forall|o: Oracle| #[trigger]
            agrees(final(host).log(), o) ==> login_form(*source, old(host).world(), o) == (
                value_result(r),
                final(host).world(),
            ),
{
    broadcast use group_log;
    broadcast use lemma_array_model;

    proof {
        crate::util::chars::lemma_trim_len(seq![]);
    }
    let raw = match &source.login_ui {
        Some(t) => trim(t.as_str()),
        None => String::new(),
    };
    if is_empty_text(raw.as_str()) {
        let none: Vec<Json> = Vec::new();
        assert(crate::ext::json::json_models(none@) =~= seq![]);
        return Ok(success_without_http(Json::Array(none)));
    }
    if let Some(v) = parse_json(raw.as_str()) {
        return check_form(v);
    }
    let script = match strip_js_prefix(raw.as_str()) {
        Some(s) => s,
        None => raw,
    };
    match run_in_source(source, script.as_str(), source.book_source_url.as_str(), None, host) {
        Err(e) => Err(make_error("parse", concat("loginUi JavaScript failed: ", e.as_str()))),
        Ok(t) => match read_json(t.as_str()) {
            Err(e) => Err(make_error("parse", concat("loginUi must return a JSON array: ", e.as_str()))),
            Ok(v) => check_form(v),
        },
    }
}

/// The values that were entered; none are an empty object.
pub open spec fn login_values(params: JsonV) -> JsonV {
    match member_of(params, "values"@) {
        Some(v) => v,
        None => JsonV::Object(seq![]),
    }
}

/// The button that was pressed: none, or a text with something in it.
pub open spec fn login_action(params: JsonV) -> Result<Option<Seq<char>>, ErrorV> {
    match member_of(params, "action"@) {
        None => Ok(None),
        Some(JsonV::Null) => Ok(None),
        Some(JsonV::Text(t)) => if trim_of(t).len() > 0 {
            Ok(Some(trim_of(t)))
        } else {
            Err(invalid_request("params.action must be a non-empty string"@))
        },
        Some(_) => Err(invalid_request("params.action must be a non-empty string"@)),
    }
}

pub open spec fn action_result(r: Result<Option<String>, ExecuteError>) -> Result<Option<Seq<char>>, ErrorV> {
    match r {
        Ok(o) => Ok(opt_text(o)),
        Err(e) => Err(e.model()),
    }
}

pub fn find_action(params: &Json) -> (r: Result<Option<String>, ExecuteError>)
    ensures
        action_result(r) == login_action(params.model()),
{
    match params.get("action") {
        None => Ok(None),
        Some(Json::Null) => Ok(None),
        Some(Json::Text(t)) => {
            let s = trim(t.as_str());
            if is_empty_text(s.as_str()) {
                return Err(make_error("invalid_request", "params.action must be a non-empty string".to_owned()));
            }
            Ok(Some(s))
        },
        Some(_) => Err(make_error("invalid_request", "params.action must be a non-empty string".to_owned())),
    }
}

/// The script that logs in: that of the source, then the button's, or the call
/// of its `login` function.
pub open spec fn login_script(script: Option<Seq<char>>, action: Option<Seq<char>>) -> Seq<char> {
    match action {
        Some(a) => or_blank(script) + "\n;\n"@ + a,
        None => or_blank(script) + "\n;\nlogin();"@,
    }
}

/// What a login script sees.
pub open spec fn login_bindings_of(values: JsonV) -> Seq<(Seq<char>, JsonV)> {
    seq![("loginInfo"@, values), ("values"@, values), ("result"@, values)]
}

pub fn login_bindings(values: &Json) -> (r: Vec<(String, Json)>)
    ensures
        member_models(r@) == login_bindings_of(values.model()),
{
    let mut m: Vec<(String, Json)> = Vec::new();
    assert(member_models(m@) =~= seq![]);
    put(&mut m, "loginInfo", copy_json(values));
    put(&mut m, "values", copy_json(values));
    put(&mut m, "result", copy_json(values));
    assert(member_models(m@) =~= login_bindings_of(values.model()));
    m
}

/// What is answered to the result of a login script.
pub open spec fn login_outcome(source: BookSource, result: Result<Seq<char>, Seq<char>>) -> Result<JsonV, ErrorV> {
    match result {
        Err(e) => Err(login_needed(source, None, source.book_source_url@, "login script failed: "@ + e)),
        Ok(t) => if login_failed(t) {
            Err(
                login_needed(source, None, source.book_source_url@, "login script reported authentication failure"@),
            )
        } else {
            Ok(
                local_json(
                    JsonV::Object(
                        seq![("result"@, JsonV::Text(t)), ("message"@, JsonV::Text("登录脚本执行成功"@))],
                    ),
                ),
            )
        },
    }
}

/// What a login is answered with.
pub open spec fn login_answer(source: BookSource, params: JsonV, w: World, o: Oracle) -> (Result<JsonV, ErrorV>, World) {
    let values = login_values(params);
    let login = trim_of(or_blank(opt_text(source.login_url)));
    if !(values is Object) {
        (Err(invalid_request("params.values must be an object"@)), w)
    } else {
        match login_action(params) {
            Err(e) => (Err(e), w),
            Ok(action) => if action is Some && web_address(action->0) is Some {
                (
                    Err(
                        web_login_needed(
                            source,
                            action->0,
                            "登录按钮需要通过外部浏览器打开；浏览器 Cookie 不会自动导入书源会话"@,
                        ),
                    ),
                    w,
                )
            } else if script_of(login) is None && login.len() > 0 {
                (
                    Err(
                        web_login_needed(
                            source,
                            match login_page(source) {
                                Some(u) => u,
                                None => login,
                            },
                            "该书源使用网页登录；当前解析器不提供内嵌 WebView，外部浏览器 Cookie 不会自动同步"@,
                        ),
                    ),
                    w,
                )
            } else if script_of(login) is Some || action is Some {
                let x = source_call(
                    source,
                    page_call(
                        login_script(script_of(login), action),
                        seq![],
                        source.book_source_url@,
                        Some(login_bindings_of(values)),
                        false,
                    ),
                    w,
                    o,
                );
                (login_outcome(source, x.0), x.1)
            } else {
                (Err(invalid_request("source.loginUrl or params.action is required"@)), w)
            },
        }
    }
}

pub fn judge_login(source: &BookSource, result: Result<String, String>) -> (r: Result<Json, ExecuteError>)
    ensures
        value_result(r) == login_outcome(*source, result_text(result)),
{
    broadcast use lemma_object_model;

    match result {
        Err(e) => Err(
            auth_required_error(
                source,
                None,
                source.book_source_url.as_str(),
                concat("login script failed: ", e.as_str()),
            ),
        ),
        Ok(t) => {
            if is_login_failure(t.as_str()) {
                return Err(
                    auth_required_error(
                        source,
                        None,
                        source.book_source_url.as_str(),
                        "login script reported authentication failure".to_owned(),
                    ),
                );
            }
            let ghost text = t@;
            let mut m: Vec<(String, Json)> = Vec::new();
            assert(member_models(m@) =~= seq![]);
            put(&mut m, "result", Json::Text(t));
            put(&mut m, "message", Json::Text("登录脚本执行成功".to_owned()));
            assert(member_models(m@) =~= seq![
                ("result"@, JsonV::Text(text)),
                ("message"@, JsonV::Text("登录脚本执行成功"@)),
            ]);
            Ok(success_without_http(Json::Object(m)))
        },
    }
}

/// Logs in.
pub fn execute_login<E: ScriptEngine>(source: &BookSource, params: &Json, host: &mut Host<E>) -> (r: Result<
    Json,
    ExecuteError,
>)
    ensures
        offline(old(host).log(), final(host).log()),
        forall|o: Oracle| #[trigger]
            agrees(final(host).log(), o) ==> login_answer(*source, params.model(), old(host).world(), o) == (
                value_result(r),
                final(host).world(),
            ),
{
    broadcast use group_log;
    broadcast use lemma_object_model;

    let values = match params.get("values") {
        Some(v) => copy_json(v),
        None => {
            let none: Vec<(String, Json)> = Vec::new();
            assert(member_models(none@) =~= seq![]);
            Json::Object(none)
        },
    };
    assert(values.model() == login_values(params.model()));
    match &values {
        Json::Object(_) => {},
        _ => {
            return Err(make_error("invalid_request", "params.values must be an object".to_owned()));
        },
    }
    let action = match find_action(params) {
        Ok(a) => a,
        Err(e) => {
            return Err(e);
        },
    };
    if let Some(a) = &action {
        if find_web_address(a.as_str()).is_some() {
            return Err(
                web_login_error(
                    source,
                    a.as_str(),
                    "登录按钮需要通过外部浏览器打开；浏览器 Cookie 不会自动导入书源会话".to_owned(),
                ),
            );
        }
    }
    let login = login_text(source);
    let script = strip_js_prefix(login.as_str());
    if script.is_none() && !is_empty_text(login.as_str()) {
        let url = match absolute_login_url(source) {
            Some(u) => u,
            None => login,
        };
        return Err(
            web_login_error(
                source,
                url.as_str(),
                "该书源使用网页登录；当前解析器不提供内嵌 WebView，外部浏览器 Cookie 不会自动同步".to_owned(),
            ),
        );
    }
    if script.is_some() || action.is_some() {
        let head = text_or_blank(script);
        let full = match &action {
            Some(a) => crate::util::chars::concat3(head.as_str(), "\n;\n", a.as_str()),
            None => concat(head.as_str(), "\n;\nlogin();"),
        };
        let bindings = login_bindings(&values);
        let result = run_in_source(
            source,
            full.as_str(),
            source.book_source_url.as_str(),
            Some(bindings),
            host,
        );
        return judge_login(source, result);
    }
    Err(make_error("invalid_request", "source.loginUrl or params.action is required".to_owned()))
}

/// Headers as the members of an object.
pub open spec fn headers_json(h: Seq<(Seq<char>, Seq<char>)>) -> JsonV {
    JsonV::Object(Seq::new(h.len(), |i: int| (h[i].0, JsonV::Text(h[i].1))))
}

pub fn headers_value(h: &Vec<(String, String)>) -> (r: Json)
    ensures
        r.model() == headers_json(pairs(h@)),
{
    broadcast use lemma_object_model;

    let ghost all = pairs(h@);
    let ghost goal = Seq::new(all.len(), |i: int| (all[i].0, JsonV::Text(all[i].1)));
    let mut m: Vec<(String, Json)> = Vec::new();
    let mut k: usize = 0;
    while k < h.len()
        invariant
            k <= h.len(),
            all == pairs(h@),
            goal == Seq::new(all.len(), |i: int| (all[i].0, JsonV::Text(all[i].1))),
            member_models(m@) =~= goal.take(k as int),
        decreases h.len() - k,
    {
        assert(all[k as int] == (h@[k as int].0@, h@[k as int].1@));
        put(&mut m, h[k].0.as_str(), Json::Text(h[k].1.clone()));
        k = k + 1;
    }
    assert(goal.take(k as int) =~= goal);
    Json::Object(m)
}

/// A response as the script that checks it sees it.
pub open spec fn response_json(r: HttpV) -> JsonV {
    JsonV::Object(
        seq![
            ("__ffiStrResponse"@, JsonV::Bool(true)),
            ("raw"@, JsonV::Null),
            ("body"@, JsonV::Text(r.body)),
            ("url"@, JsonV::Text(r.url)),
            ("code"@, JsonV::Number(integer_text(r.status as int))),
            ("headers"@, headers_json(r.headers)),
            ("isSuccessful"@, JsonV::Bool(200 <= r.status < 300)),
        ],
    )
}

pub fn response_value(r: &HttpResponse) -> (v: Json)
    ensures
        v.model() == response_json(r.model()),
{
    broadcast use lemma_object_model;

    let mut m: Vec<(String, Json)> = Vec::new();
    assert(member_models(m@) =~= seq![]);
    put(&mut m, "__ffiStrResponse", Json::Bool(true));
    put(&mut m, "raw", Json::Null);
    put(&mut m, "body", Json::Text(r.body.clone()));
    put(&mut m, "url", Json::Text(r.url.clone()));
    put(&mut m, "code", Json::Number(json_integer(r.status as i128)));
    put(&mut m, "headers", headers_value(&r.headers));
    put(&mut m, "isSuccessful", Json::Bool(200 <= r.status && r.status < 300));
    assert(member_models(m@) =~= response_json(r.model())->Object_0);
    Json::Object(m)
}

/// The headers of an object: those of its members that are texts, among the first `n`.
pub open spec fn text_headers(m: Seq<(Seq<char>, JsonV)>, n: int) -> Seq<(Seq<char>, Seq<char>)>
    decreases n,
{
    if n <= 0 {
        seq![]
    } else {
        match m[n - 1].1 {
            JsonV::Text(t) => text_headers(m, n - 1).push((lower_ascii_of(m[n - 1].0), t)),
            _ => text_headers(m, n - 1),
        }
    }
}

pub fn headers_of_members(m: &Vec<(String, Json)>) -> (r: Vec<(String, String)>)
    ensures
        pairs(r@) == text_headers(member_models(m@), m.len() as int),
{
    let ghost all = member_models(m@);
    let mut r: Vec<(String, String)> = Vec::new();
    let mut k: usize = 0;
    assert(pairs(r@) =~= seq![]);
    while k < m.len()
        invariant
            k <= m.len(),
            all == member_models(m@),
            pairs(r@) == text_headers(all, k as int),
        decreases m.len() - k,
    {
        assert(all[k as int] == (m@[k as int].0@, m@[k as int].1.model()));
        if let Some(t) = m[k].1.as_text() {
            let name = to_ascii_lowercase(m[k].0.as_str());
            let ghost before = pairs(r@);
            let ghost x = (name@, t@);
            r.push((name, copy(t)));
            assert(pairs(r@) =~= before.push(x));
        }
        k = k + 1;
    }
    r
}

/// The status that a script gives to a response.
pub open spec fn given_status(v: JsonV, status: u16) -> u16 {
    let n = match member_of(v, "code"@) {
        Some(x) => Some(x),
        None => member_of(v, "status"@),
    };
    match n {
        Some(JsonV::Number(t)) => match within(unsigned_of(t), 0, 65535) {
            Some(k) => k as u16,
            None => status,
        },
        _ => status,
    }
}

pub fn find_status(v: &Json, status: u16) -> (r: u16)
    ensures
        r == given_status(v.model(), status),
{
    let n = match v.get("code") {
        Some(x) => Some(x),
        None => v.get("status"),
    };
    match n {
        Some(Json::Number(t)) => match parse_unsigned(t.to_text().as_str(), 65535) {
            Some(k) => k as u16,
            None => status,
        },
        Some(_) => status,
        None => status,
    }
}

/// The response that a script that checked it gives back; none where it is no
/// object or not a success.
pub open spec fn replaced_response(v: JsonV, r: HttpV) -> Option<HttpV> {
    let status = given_status(v, r.status);
    let success = match member_of(v, "isSuccessful"@) {
        Some(JsonV::Bool(b)) => b,
        _ => 200 <= status < 300,
    };
    if !(v is Object) || !success {
        None
    } else {
        Some(
            HttpV {
                url: match member_of(v, "url"@) {
                    Some(JsonV::Text(t)) => if trim_of(t).len() > 0 {
                        t
                    } else {
                        r.url
                    },
                    _ => r.url,
                },
                status,
                headers: match member_of(v, "headers"@) {
                    Some(JsonV::Object(m)) => text_headers(m, m.len() as int),
                    _ => r.headers,
                },
                body: match member_of(v, "body"@) {
                    Some(JsonV::Text(t)) => t,
                    Some(JsonV::Null) => r.body,
                    None => r.body,
                    Some(x) => json_text_of(x),
                },
            },
        )
    }
}

pub open spec fn opt_http(o: Option<HttpResponse>) -> Option<HttpV> {
    match o {
        Some(r) => Some(r.model()),
        None => None,
    }
}

/// Takes what a script made of a response.
pub fn response_from_login_check(value: &Json, original: HttpResponse) -> (r: Option<HttpResponse>)
    ensures
        opt_http(r) == replaced_response(value.model(), original.model()),
{
    broadcast use lemma_object_model;

    match value {
        Json::Object(_) => {},
        _ => {
            return None;
        },
    }
    let status = find_status(value, original.status);
    let success = match value.get("isSuccessful") {
        Some(Json::Bool(b)) => *b,
        Some(_) => 200 <= status && status < 300,
        None => 200 <= status && status < 300,
    };
    if !success {
        return None;
    }
    let body = match value.get("body") {
        Some(Json::Text(t)) => t.clone(),
        Some(Json::Null) => original.body,
        None => original.body,
        Some(x) => json_to_text(x),
    };
    let url = match value.get("url") {
        Some(Json::Text(t)) => if is_empty_text(trim(t.as_str()).as_str()) {
            original.url
        } else {
            t.clone()
        },
        Some(_) => original.url,
        None => original.url,
    };
    let headers = match value.get("headers") {
        Some(Json::Object(m)) => {
            assert(member_models(m@).len() == m.len());
            headers_of_members(m)
        },
        Some(_) => original.headers,
        None => original.headers,
    };
    Some(HttpResponse { url, status, headers, body })
}

/// What is made of a response once the script that checks it has run.
pub open spec fn login_checked(source: BookSource, r: HttpV, result: Result<Seq<char>, Seq<char>>) -> Result<HttpV, ErrorV> {
    match result {
        Err(e) => Err(login_needed(source, Some(r.status), r.url, "loginCheckJs failed: "@ + e)),
        Ok(t) => if same_name(trim_of(t), "false"@) || asks_login(trim_of(t)) {
            Err(
                login_needed(
                    source,
                    Some(r.status),
                    r.url,
                    "loginCheckJs reports that authentication is required"@,
                ),
            )
        } else if same_name(trim_of(t), "true"@) {
            Ok(r)
        } else {
            match json_of(t) {
                None => Err(
                    login_needed(source, Some(r.status), r.url, "loginCheckJs must return a StrResponse"@),
                ),
                Some(v) => match replaced_response(v, r) {
                    Some(x) => Ok(x),
                    None => Err(
                        login_needed(
                            source,
                            None,
                            source.book_source_url@,
                            "loginCheckJs must return a StrResponse"@,
                        ),
                    ),
                },
            }
        },
    }
}

pub open spec fn checked_result(r: Result<HttpResponse, ExecuteError>) -> Result<HttpV, ErrorV> {
    match r {
        Ok(x) => Ok(x.model()),
        Err(e) => Err(e.model()),
    }
}

/// Takes the result of the script that checks a response.
pub fn judge_login_check(source: &BookSource, response: HttpResponse, result: Result<String, String>) -> (r: Result<
    HttpResponse,
    ExecuteError,
>)
    ensures
        checked_result(r) == login_checked(*source, response.model(), result_text(result)),
{
    let output = match result {
        Ok(t) => t,
        Err(e) => {
            return Err(
                auth_required_error(
                    source,
                    Some(response.status),
                    response.url.as_str(),
                    concat("loginCheckJs failed: ", e.as_str()),
                ),
            );
        },
    };
    let trimmed = trim(output.as_str());
    if eq_ignore_ascii_case(trimmed.as_str(), "false") || login_check_failed_text(trimmed.as_str()) {
        return Err(
            auth_required_error(
                source,
                Some(response.status),
                response.url.as_str(),
                "loginCheckJs reports that authentication is required".to_owned(),
            ),
        );
    }
    if eq_ignore_ascii_case(trimmed.as_str(), "true") {
        return Ok(response);
    }
    match parse_json(output.as_str()) {
        None => Err(
            auth_required_error(
                source,
                Some(response.status),
                response.url.as_str(),
                "loginCheckJs must return a StrResponse".to_owned(),
            ),
        ),
        Some(v) => match response_from_login_check(&v, response) {
            Some(x) => Ok(x),
            None => Err(
                auth_required_error(
                    source,
                    None,
                    source.book_source_url.as_str(),
                    "loginCheckJs must return a StrResponse".to_owned(),
                ),
            ),
        },
    }
}

/// A response that the source's script checked, if it has one.
pub open spec fn login_validated(source: BookSource, r: HttpV, w: World, o: Oracle) -> (Result<HttpV, ErrorV>, World) {
    let script = trim_of(or_blank(opt_text(source.login_check_js)));
    if script.len() == 0 {
        (Ok(r), w)
    } else {
        let x = source_call(
            source,
            page_call(script, seq![], r.url, Some(seq![("result"@, response_json(r))]), false),
            w,
            o,
        );
        (login_checked(source, r, x.0), x.1)
    }
}

/// Checks by the source's script that a response is not a login page.
pub fn validate_login_response<E: ScriptEngine>(source: &BookSource, response: HttpResponse, host: &mut Host<E>) -> (r:
    Result<HttpResponse, ExecuteError>)
    ensures
        offline(old(host).log(), final(host).log()),
        forall|o: Oracle| #[trigger]
            agrees(final(host).log(), o) ==> login_validated(*source, response.model(), old(host).world(), o) == (
                checked_result(r),
                final(host).world(),
            ),
{
    broadcast use group_log;

    proof {
        crate::util::chars::lemma_trim_len(seq![]);
    }
    let script = match &source.login_check_js {
        Some(t) => trim(t.as_str()),
        None => String::new(),
    };
    if is_empty_text(script.as_str()) {
        return Ok(response);
    }
    let mut m: Vec<(String, Json)> = Vec::new();
    assert(member_models(m@) =~= seq![]);
    put(&mut m, "result", response_value(&response));
    assert(member_models(m@) =~= seq![("result"@, response_json(response.model()))]);
    let result = run_in_source(source, script.as_str(), response.url.as_str(), Some(m), host);
    judge_login_check(source, response, result)
}

} // verus!
