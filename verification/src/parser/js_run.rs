//! What a script sees when it runs, and what is made of its value.

use crate::ext::json::{copy_json, integer_text, json_integer, lemma_object_model, member_models, put, Json, JsonV};
use crate::parser::field::or_blank;
use crate::parser::script::{CallV, ScriptCall};
use crate::util::chars::{concat3, list_contains, opt_text, texts};
use vstd::prelude::*;
use vstd::string::*;

verus! {

/// A script in a block of its own, so that what it declares does not stay.
pub fn scoped_script(script: &str) -> (r: String)
    ensures
        r@ == "{\n"@ + script@ + "\n}"@,
{
    concat3("{\n", script, "\n}")
}

/// The input and the address of a call under all their names, then its key and page.
pub open spec fn scope_of(c: CallV) -> Seq<(Seq<char>, JsonV)> {
    let input = JsonV::Text(or_blank(c.input));
    let base = JsonV::Text(or_blank(c.base_url));
    let m = seq![
        ("input"@, input),
        ("result"@, input),
        ("src"@, input),
        ("base_url"@, base),
        ("baseUrl"@, base),
        ("url"@, base),
    ];
    let k = match c.key {
        Some(t) => m.push(("key"@, JsonV::Text(t))),
        None => m,
    };
    match c.page {
        Some(n) => k.push(("page"@, JsonV::Number(integer_text(n as int)))),
        None => k,
    }
}

/// What a script finds unset: no login data, no book, no chapter.
pub open spec fn unset_scope() -> Seq<(Seq<char>, JsonV)> {
    seq![
        ("loginInfo"@, JsonV::Object(seq![])),
        ("book"@, JsonV::Object(seq![])),
        ("chapter"@, JsonV::Object(seq![])),
        ("title"@, JsonV::Text(""@)),
        ("nextChapterUrl"@, JsonV::Text(""@)),
        ("rssArticle"@, JsonV::Object(seq![])),
        ("__allowTocRefresh"@, JsonV::Bool(false)),
    ]
}

/// The values that a call sets, in order: of two with one name the last stays. A
/// call within a running script leaves what that script has of a book and the like.
pub open spec fn call_values_of(c: CallV, nested: bool) -> Seq<(Seq<char>, JsonV)> {
    let m = if nested {
        scope_of(c)
    } else {
        scope_of(c) + unset_scope()
    };
    match c.bindings {
        Some(b) => m + b,
        None => m,
    }
}

pub fn text_value(o: &Option<String>) -> (r: Json)
    ensures
        r.model() == JsonV::Text(or_blank(opt_text(*o))),
{
    match o {
        Some(t) => Json::Text(t.clone()),
        None => {
            let t = String::new();
            assert(t@ =~= seq![]);
            Json::Text(t)
        },
    }
}

fn no_members() -> (r: Json)
    ensures
        r.model() == JsonV::Object(seq![]),
{
    broadcast use lemma_object_model;

    let m: Vec<(String, Json)> = Vec::new();
    assert(member_models(m@) =~= seq![]);
    Json::Object(m)
}

pub fn put_unset(m: &mut Vec<(String, Json)>)
    ensures
        member_models(final(m)@) == member_models(old(m)@) + unset_scope(),
{
    let ghost before = member_models(m@);
    put(m, "loginInfo", no_members());
    put(m, "book", no_members());
    put(m, "chapter", no_members());
    put(m, "title", Json::Text("".to_owned()));
    put(m, "nextChapterUrl", Json::Text("".to_owned()));
    put(m, "rssArticle", no_members());
    put(m, "__allowTocRefresh", Json::Bool(false));
    assert(member_models(m@) =~= before + unset_scope());
}

fn put_scope(m: &mut Vec<(String, Json)>, call: &ScriptCall)
    requires
        old(m).len() == 0,
    ensures
        member_models(final(m)@) == scope_of(call.model()),
{
    assert(member_models(m@) =~= seq![]);
    put(m, "input", text_value(&call.input));
    put(m, "result", text_value(&call.input));
    put(m, "src", text_value(&call.input));
    put(m, "base_url", text_value(&call.base_url));
    put(m, "baseUrl", text_value(&call.base_url));
    put(m, "url", text_value(&call.base_url));
    let ghost input = JsonV::Text(or_blank(opt_text(call.input)));
    let ghost base = JsonV::Text(or_blank(opt_text(call.base_url)));
    assert(member_models(m@) =~= seq![
        ("input"@, input),
        ("result"@, input),
        ("src"@, input),
        ("base_url"@, base),
        ("baseUrl"@, base),
        ("url"@, base),
    ]);
    if let Some(t) = &call.key {
        put(m, "key", Json::Text(t.clone()));
    }
    if let Some(n) = call.page {
        put(m, "page", Json::Number(json_integer(n as i128)));
    }
}

/// The values that a call sets before its script runs.
pub fn call_values(call: &ScriptCall, nested: bool) -> (r: Vec<(String, Json)>)
    ensures
        member_models(r@) == call_values_of(call.model(), nested),
{
    let mut m: Vec<(String, Json)> = Vec::new();
    put_scope(&mut m, call);
    if !nested {
        put_unset(&mut m);
    }
    if let Some(b) = &call.bindings {
        let ghost before = member_models(m@);
        let ghost all = member_models(b@);
        let mut k: usize = 0;
        assert(member_models(m@) =~= before + all.take(0));
        while k < b.len()
            invariant
                k <= b.len(),
                all == member_models(b@),
                member_models(m@) == before + all.take(k as int),
            decreases b.len() - k,
        {
            assert(all[k as int] == (b@[k as int].0@, b@[k as int].1.model()));
            put(&mut m, b[k].0.as_str(), copy_json(&b[k].1));
            assert(member_models(m@) =~= before + all.take(k + 1));
            k = k + 1;
        }
        assert(all.take(k as int) =~= all);
    }
    m
}

/// The first `n` names of values, each once.
pub open spec fn names_of(m: Seq<(Seq<char>, JsonV)>, n: int) -> Seq<Seq<char>>
    decreases n,
{
    if n <= 0 {
        seq![]
    } else if names_of(m, n - 1).contains(m[n - 1].0) {
        names_of(m, n - 1)
    } else {
        names_of(m, n - 1).push(m[n - 1].0)
    }
}

/// The names to put back after a call within a running script, each once: those
/// of the call, and the key and the page whether it sets them or not.
pub open spec fn saved_names_of(c: CallV) -> Seq<Seq<char>> {
    let m = call_values_of(c, true) + seq![("key"@, JsonV::Null), ("page"@, JsonV::Null)];
    names_of(m, m.len() as int)
}

/// The names to put back after a call within a running script.
pub fn saved_names(call: &ScriptCall) -> (r: Vec<String>)
    ensures
        texts(r@) == saved_names_of(call.model()),
{
    let mut m = call_values(call, true);
    put(&mut m, "key", Json::Null);
    put(&mut m, "page", Json::Null);
    let ghost all = member_models(m@);
    assert(all =~= call_values_of(call.model(), true) + seq![("key"@, JsonV::Null), ("page"@, JsonV::Null)]);
    let mut r: Vec<String> = Vec::new();
    let mut k: usize = 0;
    assert(texts(r@) =~= seq![]);
    while k < m.len()
        invariant
            k <= m.len(),
            all == member_models(m@),
            texts(r@) == names_of(all, k as int),
        decreases m.len() - k,
    {
        assert(all[k as int] == (m@[k as int].0@, m@[k as int].1.model()));
        if !list_contains(&r, m[k].0.as_str()) {
            let ghost before = texts(r@);
            r.push(m[k].0.clone());
            assert(texts(r@) =~= before.push(all[k as int].0));
        }
        k = k + 1;
    }
    assert(all.len() == m.len());
    r
}

proof fn lemma_names(m: Seq<(Seq<char>, JsonV)>, n: int)
    requires
        0 <= n <= m.len(),
    ensures
        names_of(m, n).no_duplicates(),
        forall|i: int| 0 <= i < n ==> names_of(m, n).contains(#[trigger] m[i].0),
    decreases n,
{
    if n > 0 {
        lemma_names(m, n - 1);
        let before = names_of(m, n - 1);
        let now = names_of(m, n);
        assert forall|i: int| 0 <= i < n implies now.contains(#[trigger] m[i].0) by {
            if i < n - 1 {
                assert(before.contains(m[i].0));
                let k = choose|k: int| 0 <= k < before.len() && before[k] == m[i].0;
                assert(now[k] == m[i].0);
            } else if !before.contains(m[i].0) {
                assert(now[before.len() as int] == m[i].0);
            }
        }
    }
}

/// Every value that a call within a running script sets is put back, once.
pub proof fn law_nested_call_restores_its_scope(c: CallV, i: int)
    requires
        0 <= i < call_values_of(c, true).len(),
    ensures
        saved_names_of(c).no_duplicates(),
        saved_names_of(c).contains(call_values_of(c, true)[i].0),
{
    let m = call_values_of(c, true) + seq![("key"@, JsonV::Null), ("page"@, JsonV::Null)];
    lemma_names(m, m.len() as int);
    assert(m[i] == call_values_of(c, true)[i]);
}

/// The value of a script as an engine gives it.
#[derive(Debug)]
pub enum ScriptValue {
    /// `null` or `undefined`.
    Nothing,
    Text(String),
    /// Anything else: as JSON, where it can be written so, and as a string.
    Other { json: Option<String>, string: String },
}

pub enum ScriptValueV {
    Nothing,
    Text(Seq<char>),
    Other { json: Option<Seq<char>>, string: Seq<char> },
}

impl ScriptValue {
    pub open spec fn model(self) -> ScriptValueV {
        match self {
            ScriptValue::Nothing => ScriptValueV::Nothing,
            ScriptValue::Text(t) => ScriptValueV::Text(t@),
            ScriptValue::Other { json, string } => ScriptValueV::Other { json: opt_text(json), string: string@ },
        }
    }
}

/// A value as text: a string as it is, all else as JSON.
pub open spec fn value_shown(v: ScriptValueV) -> Seq<char> {
    match v {
        ScriptValueV::Nothing => seq![],
        ScriptValueV::Text(t) => t,
        ScriptValueV::Other { json, string: _ } => or_blank(json),
    }
}

/// What a call gives: in a template the value as a string, else the value as
/// text, or what the script left in `result` where it has none.
pub open spec fn call_result(value: ScriptValueV, left: ScriptValueV, template: bool) -> Seq<char> {
    match value {
        ScriptValueV::Nothing => if template {
            seq![]
        } else {
            value_shown(left)
        },
        ScriptValueV::Text(t) => t,
        ScriptValueV::Other { json: _, string } => if template {
            string
        } else {
            value_shown(value)
        },
    }
}

pub fn show(v: ScriptValue) -> (r: String)
    ensures
        r@ == value_shown(v.model()),
{
    match v {
        ScriptValue::Nothing => crate::parser::field::text_or_blank(None),
        ScriptValue::Text(t) => t,
        ScriptValue::Other { json, string: _ } => crate::parser::field::text_or_blank(json),
    }
}

/// Makes the text of a call from the value of its script and what it left.
pub fn script_text(value: ScriptValue, left: ScriptValue, template: bool) -> (r: String)
    ensures
        r@ == call_result(value.model(), left.model(), template),
{
    match value {
        ScriptValue::Nothing => {
            if template {
                return crate::parser::field::text_or_blank(None);
            }
            show(left)
        },
        ScriptValue::Text(t) => t,
        ScriptValue::Other { json, string } => {
            if template {
                return string;
            }
            crate::parser::field::text_or_blank(json)
        },
    }
}

} // verus!
