//! Running scripts: what each form of a call hands to the engine.

use crate::ext::json::{Json, JsonV};
use crate::parser::script::{
    agrees, evaluated, next_answer, offline, opt_members, result_text, CallV, Host, Oracle, ScriptCall, ScriptEngine,
    World,
};
use crate::util::chars::opt_str;
use vstd::prelude::*;
use vstd::string::*;

verus! {

/// A call that only has a script.
pub open spec fn bare_call(script: Seq<char>) -> CallV {
    CallV {
        script,
        input: None,
        base_url: None,
        key: None,
        page: None,
        source_key: None,
        bindings: None,
        template: false,
        js_lib: None,
    }
}

/// A call on a page's content.
pub open spec fn page_call(
    script: Seq<char>,
    input: Seq<char>,
    base_url: Seq<char>,
    bindings: Option<Seq<(Seq<char>, JsonV)>>,
    template: bool,
) -> CallV {
    CallV { input: Some(input), base_url: Some(base_url), bindings, template, ..bare_call(script) }
}

/// A call that builds a search address.
pub open spec fn url_call(
    script: Seq<char>,
    result: Seq<char>,
    key: Seq<char>,
    page: i32,
    source_key: Seq<char>,
    base_url: Seq<char>,
    bindings: Option<Seq<(Seq<char>, JsonV)>>,
    template: bool,
) -> CallV {
    CallV {
        input: Some(result),
        base_url: Some(base_url),
        key: Some(key),
        page: Some(page),
        source_key: Some(source_key),
        bindings,
        template,
        ..bare_call(script)
    }
}

/// What a call gives, and the world after it.
pub open spec fn called(call: CallV, w: World, o: Oracle) -> (Result<Seq<char>, Seq<char>>, World) {
    (next_answer(w, o).text, evaluated(w, call, o))
}

pub fn page_script(script: &str, input: &str, base_url: &str, bindings: Option<Vec<(String, Json)>>, template: bool) -> (r:
    ScriptCall)
    ensures
        r.model() == page_call(script@, input@, base_url@, opt_members(bindings), template),
{
    ScriptCall {
        script: script.to_owned(),
        input: Some(input.to_owned()),
        base_url: Some(base_url.to_owned()),
        key: None,
        page: None,
        source_key: None,
        bindings,
        template,
        js_lib: None,
    }
}

/// Runs a task once with a source's script library in use, and puts the library
/// before it back, whatever the task did.
pub fn with_js_lib<E, T, F: FnOnce(&mut Host<E>) -> T>(js_lib: Option<&str>, task: F, host: &mut Host<E>) -> (r: T)
    requires
        forall|h: &mut Host<E>|
            h.lib() == opt_str(js_lib) && h.log() == old(host).log() && h.state() == old(host).state()
                ==> #[trigger] task.requires((h,)),
    ensures
        exists|h: &mut Host<E>|
            h.lib() == opt_str(js_lib) && h.log() == old(host).log() && h.state() == old(host).state()
                && #[trigger] task.ensures((h,), r) && final(host).log() == final(h).log() && final(host).state()
                == final(h).state(),
        final(host).lib() == old(host).lib(),
{
    let lib = match js_lib {
        Some(s) => Some(s.to_owned()),
        None => None,
    };
    let previous = host.swap_lib(lib);
    let r = task(host);
    let _ = host.swap_lib(previous);
    r
}

/// Runs a script on a page's content.
pub fn eval_js<E: ScriptEngine>(script: &str, input: &str, base_url: &str, host: &mut Host<E>) -> (r: Result<
    String,
    String,
>)
    ensures
        offline(old(host).log(), final(host).log()),
        forall|o: Oracle| #[trigger]
            agrees(final(host).log(), o) ==> called(
                page_call(script@, input@, base_url@, None, false),
                old(host).world(),
                o,
            ) == (result_text(r), final(host).world()),
{
    host.eval(page_script(script, input, base_url, None, false))
}

/// Runs a script on a page's content, with values bound to names.
pub fn eval_js_with_bindings<E: ScriptEngine>(
    script: &str,
    input: &str,
    base_url: &str,
    bindings: Vec<(String, Json)>,
    host: &mut Host<E>,
) -> (r: Result<String, String>)
    ensures
        offline(old(host).log(), final(host).log()),
        forall|o: Oracle| #[trigger]
            agrees(final(host).log(), o) ==> called(
                page_call(
                    script@,
                    input@,
                    base_url@,
                    Some(crate::ext::json::member_models(bindings@)),
                    false,
                ),
                old(host).world(),
                o,
            ) == (result_text(r), final(host).world()),
{
    host.eval(page_script(script, input, base_url, Some(bindings), false))
}

/// Runs a script whose value stands in a template.
pub fn eval_js_template<E: ScriptEngine>(script: &str, input: &str, base_url: &str, host: &mut Host<E>) -> (r: Result<
    String,
    String,
>)
    ensures
        offline(old(host).log(), final(host).log()),
        forall|o: Oracle| #[trigger]
            agrees(final(host).log(), o) ==> called(
                page_call(script@, input@, base_url@, None, true),
                old(host).world(),
                o,
            ) == (result_text(r), final(host).world()),
{
    host.eval(page_script(script, input, base_url, None, true))
}

/// Runs a script whose value stands in a template, with values bound to names.
pub fn eval_js_template_with_bindings<E: ScriptEngine>(
    script: &str,
    input: &str,
    base_url: &str,
    bindings: Vec<(String, Json)>,
    host: &mut Host<E>,
) -> (r: Result<String, String>)
    ensures
        offline(old(host).log(), final(host).log()),
        forall|o: Oracle| #[trigger]
            agrees(final(host).log(), o) ==> called(
                page_call(script@, input@, base_url@, Some(crate::ext::json::member_models(bindings@)), true),
                old(host).world(),
                o,
            ) == (result_text(r), final(host).world()),
{
    host.eval(page_script(script, input, base_url, Some(bindings), true))
}

/// Runs a script for a search, with the key and the page that are searched.
pub fn eval_js_search_with_source<E: ScriptEngine>(
    script: &str,
    key: &str,
    page: i32,
    source_key: &str,
    host: &mut Host<E>,
) -> (r: Result<String, String>)
    ensures
        offline(old(host).log(), final(host).log()),
        forall|o: Oracle| #[trigger]
            agrees(final(host).log(), o) ==> called(
                (CallV { key: Some(key@), page: Some(page), source_key: Some(source_key@), ..bare_call(script@) }),
                old(host).world(),
                o,
            ) == (result_text(r), final(host).world()),
{
    host.eval(
        ScriptCall {
            script: script.to_owned(),
            input: None,
            base_url: None,
            key: Some(key.to_owned()),
            page: Some(page),
            source_key: Some(source_key.to_owned()),
            bindings: None,
            template: false,
            js_lib: None,
        },
    )
}

pub fn url_script(
    script: &str,
    result: &str,
    key: &str,
    page: i32,
    source_key: &str,
    base_url: &str,
    bindings: Option<Vec<(String, Json)>>,
    template: bool,
) -> (r: ScriptCall)
    ensures
        r.model() == url_call(
            script@,
            result@,
            key@,
            page,
            source_key@,
            base_url@,
            opt_members(bindings),
            template,
        ),
{
    ScriptCall {
        script: script.to_owned(),
        input: Some(result.to_owned()),
        base_url: Some(base_url.to_owned()),
        key: Some(key.to_owned()),
        page: Some(page),
        source_key: Some(source_key.to_owned()),
        bindings,
        template,
        js_lib: None,
    }
}

/// Runs a script that builds an address.
pub fn eval_js_url<E: ScriptEngine>(
    script: &str,
    result: &str,
    key: &str,
    page: i32,
    source_key: &str,
    base_url: &str,
    host: &mut Host<E>,
) -> (r: Result<String, String>)
    ensures
        offline(old(host).log(), final(host).log()),
        forall|o: Oracle| #[trigger]
            agrees(final(host).log(), o) ==> called(
                url_call(script@, result@, key@, page, source_key@, base_url@, None, false),
                old(host).world(),
                o,
            ) == (result_text(r), final(host).world()),
{
    eval_js_url_with_bindings(script, result, key, page, source_key, base_url, None, host)
}

/// Runs a script that builds an address, with values bound to names.
pub fn eval_js_url_with_bindings<E: ScriptEngine>(
    script: &str,
    result: &str,
    key: &str,
    page: i32,
    source_key: &str,
    base_url: &str,
    bindings: Option<Vec<(String, Json)>>,
    host: &mut Host<E>,
) -> (r: Result<String, String>)
    ensures
        offline(old(host).log(), final(host).log()),
        forall|o: Oracle| #[trigger]
            agrees(final(host).log(), o) ==> called(
                url_call(script@, result@, key@, page, source_key@, base_url@, opt_members(bindings), false),
                old(host).world(),
                o,
            ) == (result_text(r), final(host).world()),
{
    host.eval(url_script(script, result, key, page, source_key, base_url, bindings, false))
}

/// Runs a script that stands in the template of an address.
pub fn eval_js_url_template<E: ScriptEngine>(
    script: &str,
    result: &str,
    key: &str,
    page: i32,
    source_key: &str,
    base_url: &str,
    host: &mut Host<E>,
) -> (r: Result<String, String>)
    ensures
        offline(old(host).log(), final(host).log()),
        forall|o: Oracle| #[trigger]
            agrees(final(host).log(), o) ==> called(
                url_call(script@, result@, key@, page, source_key@, base_url@, None, true),
                old(host).world(),
                o,
            ) == (result_text(r), final(host).world()),
{
    eval_js_url_template_with_bindings(script, result, key, page, source_key, base_url, None, host)
}

/// Runs a script that stands in the template of an address, with values bound
/// to names.
pub fn eval_js_url_template_with_bindings<E: ScriptEngine>(
    script: &str,
    result: &str,
    key: &str,
    page: i32,
    source_key: &str,
    base_url: &str,
    bindings: Option<Vec<(String, Json)>>,
    host: &mut Host<E>,
) -> (r: Result<String, String>)
    ensures
        offline(old(host).log(), final(host).log()),
        forall|o: Oracle| #[trigger]
            agrees(final(host).log(), o) ==> called(
                url_call(script@, result@, key@, page, source_key@, base_url@, opt_members(bindings), true),
                old(host).world(),
                o,
            ) == (result_text(r), final(host).world()),
{
    host.eval(url_script(script, result, key, page, source_key, base_url, bindings, true))
}

} // verus!
