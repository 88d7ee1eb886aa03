//! What holds of logins, of the checks of responses, and of errors.

use crate::crawler::address_laws::law_number_reads_back;
use crate::crawler::response::{FaultV, HttpV};
use crate::crawler::url_rule::same_name;
use crate::executor::answer_laws::lemma_member;
use crate::executor::login::{
    asks_login, fault_for, given_status, has_form, login_answer, login_checked, login_form, login_mode, login_outcome,
    login_page, login_script, replaced_response, response_json, script_of, text_headers,
};
use crate::executor::request::{
    checked_options, error_json, error_members, error_of_fault, local_json, read_source, ErrorV, ExecuteOptions,
};
use crate::ext::json::{integer_text, json_of, json_read, member_of, JsonV};
use crate::ext::urls::{url_joined, url_read, UrlV};
use crate::model::book_source::BookSource;
use crate::parser::field::or_blank;
use crate::parser::js::{called, page_call};
use crate::parser::script::{Oracle, World};
use crate::util::chars::{all_digits, decimal_of, is_digit, lower_ascii_of, opt_text, trim_of};
use vstd::prelude::*;
use vstd::string::*;

verus! {

/// Whether an error asks for a login.
pub open spec fn asks_for_login(e: ErrorV) -> bool {
    e.kind == "auth_required"@ && e.auth is Some
}

/// A response that the check of the source lets pass is the response; one that
/// it rejects, or that it fails on, asks for a login.
pub proof fn law_check_decides(source: BookSource, r: HttpV, t: Seq<char>, e: Seq<char>)
    requires
        r.status != 403,
    ensures
        same_name(trim_of(t), "true"@) && !asks_login(trim_of(t)) ==> login_checked(source, r, Ok(t)) == Ok::<
            HttpV,
            ErrorV,
        >(r),
        same_name(trim_of(t), "false"@) || asks_login(trim_of(t)) ==> login_checked(source, r, Ok(t)) is Err
            && asks_for_login(login_checked(source, r, Ok(t))->Err_0),
        login_checked(source, r, Err(e)) is Err && asks_for_login(login_checked(source, r, Err(e))->Err_0),
{
    reveal_strlit("true");
    reveal_strlit("false");
    assert(lower_ascii_of("true"@).len() == 4 && lower_ascii_of("false"@).len() == 5);
}

proof fn lemma_headers_back(h: Seq<(Seq<char>, Seq<char>)>, n: int)
    requires
        0 <= n <= h.len(),
        forall|i: int| 0 <= i < h.len() ==> lower_ascii_of((#[trigger] h[i]).0) == h[i].0,
    ensures
        text_headers(Seq::new(h.len(), |i: int| (h[i].0, JsonV::Text(h[i].1))), n) == h.take(n),
    decreases n,
{
    let m = Seq::new(h.len(), |i: int| (h[i].0, JsonV::Text(h[i].1)));
    if n > 0 {
        lemma_headers_back(h, n - 1);
        assert(m[n - 1] == (h[n - 1].0, JsonV::Text(h[n - 1].1)));
        assert(h.take(n) =~= h.take(n - 1).push(h[n - 1]));
    } else {
        assert(h.take(0) =~= seq![]);
    }
}

/// A response that the check of a source gives back as it saw it is the same
/// response, whatever response it is taken for.
pub proof fn law_response_reads_back(r: HttpV, other: HttpV)
    requires
        200 <= r.status < 300,
        trim_of(r.url).len() > 0,
        forall|i: int| 0 <= i < r.headers.len() ==> lower_ascii_of((#[trigger] r.headers[i]).0) == r.headers[i].0,
    ensures
        replaced_response(response_json(r), other) == Some(r),
{
    reveal_strlit("__ffiStrResponse");
    reveal_strlit("raw");
    reveal_strlit("body");
    reveal_strlit("url");
    reveal_strlit("code");
    reveal_strlit("headers");
    reveal_strlit("isSuccessful");
    assert("body"@[0] == 'b' && "code"@[0] == 'c');
    assert("raw"@[0] == 'r' && "url"@[0] == 'u');
    let v = response_json(r);
    let m = v->Object_0;
    assert(v == JsonV::Object(m));
    assert(m[0].0 == "__ffiStrResponse"@ && m[1].0 == "raw"@ && m[2].0 == "body"@ && m[3].0 == "url"@ && m[4].0
        == "code"@ && m[5].0 == "headers"@ && m[6].0 == "isSuccessful"@);
    lemma_member(m, 2);
    lemma_member(m, 3);
    lemma_member(m, 4);
    lemma_member(m, 5);
    lemma_member(m, 6);
    law_number_reads_back(r.status as int);
    let d = decimal_of(r.status as int);
    assert(is_digit(d[0])) by {
        assert(all_digits(d));
    }
    assert(given_status(v, other.status) == r.status);
    lemma_headers_back(r.headers, r.headers.len() as int);
    assert(r.headers.take(r.headers.len() as int) =~= r.headers);
}

/// The page that one logs in at is the address of the source for it: an address
/// of the web as it is, any other one seen from the site of the source.
pub proof fn law_login_page(source: BookSource, raw: Seq<char>, joined: Seq<char>, u: UrlV)
    requires
        opt_text(source.login_url) == Some(raw),
        trim_of(raw) == raw,
        raw.len() > 0,
        script_of(raw) is None,
        u.scheme == "http"@ || u.scheme == "https"@,
    ensures
        url_read(raw) == Ok::<UrlV, Seq<char>>(u) ==> login_page(source) == Some(u.href),
        url_read(raw) is Err && url_joined(source.book_source_url@, raw) == Some(Ok::<Seq<char>, Seq<char>>(joined))
            && url_read(joined) == Ok::<UrlV, Seq<char>>(u) ==> login_page(source) == Some(u.href),
{
}

/// A challenge of a site that asks for a login says how one logs in to the
/// source: by its form where it has one, else by its script, else at its page.
pub proof fn law_challenge_says_how(source: BookSource)
    ensures
        has_form(or_blank(opt_text(source.login_ui))) ==> login_mode(source) == "form"@,
        !has_form(or_blank(opt_text(source.login_ui))) && script_of(trim_of(or_blank(opt_text(source.login_url)))) is Some
            ==> login_mode(source) == "script"@,
        !has_form(or_blank(opt_text(source.login_ui))) && login_page(source) is Some ==> login_mode(source) == "web"@,
{
}

/// A refusal by a site whose source has no login is told by its status.
pub proof fn law_refusal_without_login(
    source: BookSource,
    message: Seq<char>,
    url: Seq<char>,
    mode: Seq<char>,
)
    requires
        !has_form(or_blank(opt_text(source.login_ui))),
        trim_of(or_blank(opt_text(source.login_url))).len() == 0,
    ensures
        ({
            let e = fault_for(
                source,
                FaultV::AuthChallenge {
                    kind: "auth_required"@,
                    message,
                    status: Some(403u16),
                    url,
                    mode,
                    login_url: None,
                    action_url: None,
                },
            );
            e.kind == "http_status"@ && e.status == Some(403u16) && e.url == Some(url) && e.auth is None
        }),
{
}

/// A login runs the script of the source with what was entered, and the call of
/// its login function or what the pressed button runs after it. What it gives is
/// the result, unless it says that the login failed.
pub proof fn law_login_is_answered(
    source: BookSource,
    params: JsonV,
    script: Seq<char>,
    values: Seq<(Seq<char>, JsonV)>,
    t: Seq<char>,
    w: World,
    o: Oracle,
)
    requires
        member_of(params, "values"@) == Some(JsonV::Object(values)),
        member_of(params, "action"@) is None,
        script_of(trim_of(or_blank(opt_text(source.login_url)))) == Some(script),
        ({
            let seen = seq![
                ("loginInfo"@, JsonV::Object(values)),
                ("values"@, JsonV::Object(values)),
                ("result"@, JsonV::Object(values)),
            ];
            let call = page_call(script + "\n;\nlogin();"@, seq![], source.book_source_url@, Some(seen), false);
            called(call, World { lib: opt_text(source.js_lib), ..w }, o).0 == Ok::<Seq<char>, Seq<char>>(t)
        }),
    ensures
        ({
            let got = login_answer(source, params, w, o).0;
            &&& same_name(trim_of(t), "false"@) || asks_login(t) ==> got is Err && asks_for_login(got->Err_0)
            &&& !same_name(trim_of(t), "false"@) && !asks_login(t) ==> {
                &&& got is Ok
                &&& member_of(got->Ok_0, "ok"@) == Some(JsonV::Bool(true))
                &&& member_of(got->Ok_0, "data"@) is Some
                &&& member_of(member_of(got->Ok_0, "data"@)->0, "result"@) == Some(JsonV::Text(t))
            }
        }),
{
    reveal_strlit("result");
    reveal_strlit("message");
    reveal_strlit("ok");
    reveal_strlit("data");
    reveal_strlit("meta");
    assert("data"@[0] == 'd' && "meta"@[0] == 'm');
    assert(login_script(Some(script), None) == script + "\n;\nlogin();"@);
    if !same_name(trim_of(t), "false"@) && !asks_login(t) {
        let v = login_outcome(source, Ok(t))->Ok_0;
        let m = v->Object_0;
        assert(v == JsonV::Object(m));
        lemma_member(m, 0);
        lemma_member(m, 1);
        let d = m[1].1->Object_0;
        assert(m[1].1 == JsonV::Object(d));
        assert("result"@.len() == 6 && "message"@.len() == 7);
        assert(d[0].0 == "result"@ && d[1].0 == "message"@);
        lemma_member(d, 0);
    }
}

/// The login form of a source is the list of its rows, empty where it has none.
pub proof fn law_form_is_answered(source: BookSource, rows: Seq<JsonV>, w: World, o: Oracle)
    ensures
        trim_of(or_blank(opt_text(source.login_ui))).len() == 0 ==> login_form(source, w, o) == (
            Ok::<JsonV, ErrorV>(local_json(JsonV::Array(seq![]))),
            w,
        ),
        trim_of(or_blank(opt_text(source.login_ui))).len() > 0 && json_of(
            trim_of(or_blank(opt_text(source.login_ui))),
        ) == Some(JsonV::Array(rows)) ==> login_form(source, w, o) == (
            Ok::<JsonV, ErrorV>(local_json(JsonV::Array(rows))),
            w,
        ),
        member_of(local_json(JsonV::Array(rows)), "data"@) == Some(JsonV::Array(rows)),
{
    reveal_strlit("ok");
    reveal_strlit("data");
    reveal_strlit("meta");
    assert("data"@[0] == 'd' && "meta"@[0] == 'm');
    let m = local_json(JsonV::Array(rows))->Object_0;
    lemma_member(m, 1);
}

/// An error in an answer says that the request failed, of what kind the failure
/// is and what is said of it, and its status and address where it has them.
pub proof fn law_error_in_answer(e: ErrorV)
    ensures
        member_of(error_json(e), "ok"@) == Some(JsonV::Bool(false)),
        member_of(error_json(e), "error"@) is Some,
        ({
            let x = member_of(error_json(e), "error"@)->0;
            &&& member_of(x, "kind"@) == Some(JsonV::Text(e.kind))
            &&& member_of(x, "message"@) == Some(JsonV::Text(e.message))
            &&& e.status matches Some(n) ==> member_of(x, "status"@) == Some(JsonV::Number(integer_text(n as int)))
            &&& e.url matches Some(u) ==> member_of(x, "url"@) == Some(JsonV::Text(u))
            &&& e.auth matches Some(a) ==> member_of(x, "auth"@) == Some(a)
        }),
{
    reveal_strlit("ok");
    reveal_strlit("error");
    reveal_strlit("kind");
    reveal_strlit("message");
    reveal_strlit("status");
    reveal_strlit("url");
    reveal_strlit("auth");
    assert("ok"@.len() == 2 && "error"@.len() == 5 && "message"@.len() == 7 && "status"@.len() == 6 && "url"@.len() == 3);
    assert("kind"@[0] == 'k' && "auth"@[0] == 'a');
    let m = error_json(e)->Object_0;
    assert(error_json(e) == JsonV::Object(m));
    assert(m[0].0 == "ok"@ && m[1].0 == "error"@);
    lemma_member(m, 0);
    lemma_member(m, 1);
    let x = error_members(e);
    assert(m[1].1 == JsonV::Object(x));
    assert(x[0].0 == "kind"@ && x[1].0 == "message"@);
    assert forall|j: int| 2 <= j < x.len() implies (#[trigger] x[j]).0 == "status"@ || x[j].0 == "url"@ || x[j].0
        == "auth"@ by {}
    lemma_member(x, 0);
    lemma_member(x, 1);
    if e.status is Some {
        assert(x[2] == ("status"@, JsonV::Number(integer_text(e.status->0 as int))));
        assert forall|j: int| 3 <= j < x.len() implies (#[trigger] x[j]).0 == "url"@ || x[j].0 == "auth"@ by {}
        lemma_member(x, 2);
    }
    if e.url is Some {
        let k = if e.status is Some {
            3int
        } else {
            2int
        };
        assert(x[k] == ("url"@, JsonV::Text(e.url->0)));
        assert forall|j: int| k < j < x.len() implies (#[trigger] x[j]).0 == "auth"@ by {}
        lemma_member(x, k);
    }
    if e.auth is Some {
        lemma_member(x, x.len() - 1);
    }
}

/// The limits of a request are those that it names, the usual ones where it
/// names none, and a limit that is too high is an error.
pub proof fn law_limits(q: ExecuteOptions)
    ensures
        checked_options(q) is Err <==> q.timeout_ms > 120000 || q.max_pages > 100 || q.max_response_bytes > 16777216,
        checked_options(q) matches Ok(v) ==> {
            &&& q.timeout_ms > 0 ==> v.timeout_ms == q.timeout_ms
            &&& q.max_pages > 0 ==> v.max_pages == q.max_pages
            &&& q.max_response_bytes > 0 ==> v.max_response_bytes == q.max_response_bytes
            &&& q.timeout_ms == 0 ==> v.timeout_ms == 15000
            &&& q.max_pages == 0 ==> v.max_pages == 100
            &&& q.max_response_bytes == 0 ==> v.max_response_bytes == 8388608
            &&& v.debug == q.debug
        },
{
}

/// A source is what its description says, unless it has no address.
pub proof fn law_source_is_read(raw: Seq<char>, source: BookSource)
    requires
        json_read(raw) is Ok,
    ensures
        trim_of(source.book_source_url@).len() > 0 ==> read_source(raw, Ok(source)) == Ok::<BookSource, ErrorV>(source),
        trim_of(source.book_source_url@).len() == 0 ==> read_source(raw, Ok(source)) is Err,
{
}

/// Whatever goes wrong in a fetch is reported as what it is, with the status and
/// the address that belong to it.
pub proof fn law_fault_is_reported(f: FaultV)
    ensures
        ({
            let e = error_of_fault(f);
            match f {
                FaultV::InvalidUrl(m) => e.kind == "url_rule"@ && e.message == m && e.url is None && e.status is None,
                FaultV::Network(m) => e.kind == "network"@ && e.message == m && e.url is None && e.status is None,
                FaultV::Timeout { url, message } => e.kind == "timeout"@ && e.message == message && e.url == url
                    && e.status is None,
                FaultV::HttpStatus { status, url } => e.kind == "http_status"@ && e.status == Some(status) && e.url
                    == Some(url) && e.message == "HTTP "@ + decimal_of(status as int),
                FaultV::ResponseTooLarge { url, limit } => e.kind == "response_too_large"@ && e.url == Some(url)
                    && e.status is None && e.message == "response exceeds "@ + decimal_of(limit as int) + " bytes"@,
                FaultV::AuthChallenge { kind, message, status, url, .. } => e.kind == kind && e.message == message
                    && e.status == status && e.url == Some(url) && e.auth is Some,
            }
        }),
        error_of_fault(f).auth is Some <==> f is AuthChallenge,
{
}

} // verus!
