//! The variables that rules read and set: of the chapter, the book, the result
//! list and the session.

use crate::crawler::sessions::{law_session_variable_reads_back, session_variable, sessions_with};
use crate::ext::json::{
    json_of, json_text_of, json_to_text, lemma_object_model, member_models, parse_json, set_member, Json, JsonV,
};
use crate::ext::xml::pairs;
use crate::parser::script::{agrees, group_log, offline, Host, Oracle, ScriptEngine, World};
use crate::util::chars::{opt_str, opt_text, same};
use vstd::prelude::*;
use vstd::string::*;

verus! {

/// The value of a key, from position `k` on.
pub open spec fn lookup<V>(m: Seq<(Seq<char>, V)>, key: Seq<char>, k: int) -> Option<V>
    decreases m.len() - k,
{
    if k < 0 || k >= m.len() {
        None
    } else if m[k].0 == key {
        Some(m[k].1)
    } else {
        lookup(m, key, k + 1)
    }
}

/// `m` with a key set: in its place where it is there, else at the end.
pub open spec fn with_pair<V>(m: Seq<(Seq<char>, V)>, key: Seq<char>, value: V, k: int) -> Seq<
    (Seq<char>, V),
>
    decreases m.len() - k,
{
    if k < 0 || k >= m.len() {
        m.push((key, value))
    } else if m[k].0 == key {
        m.update(k, (key, value))
    } else {
        with_pair(m, key, value, k + 1)
    }
}

/// A key that was just set has the value that it was set to.
pub proof fn law_get_after_set<V>(m: Seq<(Seq<char>, V)>, key: Seq<char>, value: V)
    ensures
        lookup(with_pair(m, key, value, 0), key, 0) == Some(value),
{
    lemma_get_after_set(m, key, value, 0);
}

proof fn lemma_get_after_set<V>(m: Seq<(Seq<char>, V)>, key: Seq<char>, value: V, k: int)
    requires
        0 <= k,
        k <= m.len(),
        forall|i: int| 0 <= i < k ==> (#[trigger] m[i]).0 != key,
    ensures
        lookup(with_pair(m, key, value, k), key, 0) == Some(value),
        with_pair(m, key, value, k).len() >= m.len(),
    decreases m.len() - k,
{
    let r = with_pair(m, key, value, k);
    if k >= m.len() {
        lemma_lookup_at(r, key, value, m.len() as int, 0);
    } else if m[k].0 == key {
        lemma_lookup_at(r, key, value, k, 0);
    } else {
        lemma_get_after_set(m, key, value, k + 1);
    }
}

proof fn lemma_lookup_at<V>(m: Seq<(Seq<char>, V)>, key: Seq<char>, value: V, at: int, k: int)
    requires
        0 <= k <= at < m.len(),
        m[at] == (key, value),
        forall|i: int| 0 <= i < at ==> (#[trigger] m[i]).0 != key,
    ensures
        lookup(m, key, k) == Some(value),
    decreases at - k,
{
    if k < at {
        lemma_lookup_at(m, key, value, at, k + 1);
    }
}

/// Setting a key leaves the values of all other keys.
pub proof fn law_set_keeps_others<V>(m: Seq<(Seq<char>, V)>, key: Seq<char>, value: V, other: Seq<char>)
    requires
        other != key,
    ensures
        lookup(with_pair(m, key, value, 0), other, 0) == lookup(m, other, 0),
{
    lemma_set_keeps(m, key, value, other, 0);
}

proof fn lemma_set_keeps<V>(m: Seq<(Seq<char>, V)>, key: Seq<char>, value: V, other: Seq<char>, k: int)
    requires
        other != key,
        0 <= k,
    ensures
        lookup(with_pair(m, key, value, k), other, 0) == lookup(m, other, 0),
    decreases m.len() - k,
{
    if k >= m.len() {
        lemma_lookup_pushed(m, (key, value), other, 0);
    } else if m[k].0 == key {
        lemma_lookup_updated(m, k, (key, value), other, 0);
    } else {
        lemma_set_keeps(m, key, value, other, k + 1);
    }
}

proof fn lemma_lookup_pushed<V>(m: Seq<(Seq<char>, V)>, p: (Seq<char>, V), other: Seq<char>, i: int)
    requires
        p.0 != other,
        0 <= i <= m.len(),
    ensures
        lookup(m.push(p), other, i) == lookup(m, other, i),
    decreases m.len() - i,
{
    if i < m.len() {
        lemma_lookup_pushed(m, p, other, i + 1);
    } else {
        assert(lookup(m.push(p), other, i + 1) is None);
    }
}

proof fn lemma_lookup_updated<V>(m: Seq<(Seq<char>, V)>, k: int, p: (Seq<char>, V), other: Seq<char>, i: int)
    requires
        0 <= k < m.len(),
        m[k].0 != other,
        p.0 != other,
        0 <= i <= m.len(),
    ensures
        lookup(m.update(k, p), other, i) == lookup(m, other, i),
    decreases m.len() - i,
{
    if i < m.len() {
        lemma_lookup_updated(m, k, p, other, i + 1);
    }
}

/// A map of variables, in the order in which they were first set.
pub struct Variables {
    pub pairs: Vec<(String, String)>,
}

impl Variables {
    pub open spec fn view(&self) -> Seq<(Seq<char>, Seq<char>)> {
        pairs(self.pairs@)
    }

    pub fn new() -> (r: Variables)
        ensures
            r.view() == Seq::<(Seq<char>, Seq<char>)>::empty(),
    {
        let r = Variables { pairs: Vec::new() };
        assert(r.view() =~= Seq::empty());
        r
    }

    pub fn get(&self, key: &str) -> (r: Option<String>)
        ensures
            opt_text(r) == lookup(self.view(), key@, 0),
    {
        let mut k: usize = 0;
        while k < self.pairs.len()
            invariant
                k <= self.pairs.len(),
                lookup(self.view(), key@, 0) == lookup(self.view(), key@, k as int),
            decreases self.pairs.len() - k,
        {
            assert(self.view()[k as int] == (self.pairs@[k as int].0@, self.pairs@[k as int].1@));
            if same(self.pairs[k].0.as_str(), key) {
                return Some(self.pairs[k].1.clone());
            }
            k = k + 1;
        }
        None
    }

    pub fn insert(&mut self, key: String, value: String)
        ensures
            final(self).view() == with_pair(old(self).view(), key@, value@, 0),
    {
        let ghost all = self.view();
        let ghost x = (key@, value@);
        let mut k: usize = 0;
        while k < self.pairs.len()
            invariant
                k <= self.pairs.len(),
                self.view() == all,
                all == old(self).view(),
                x == (key@, value@),
                with_pair(all, key@, value@, 0) == with_pair(all, key@, value@, k as int),
            decreases self.pairs.len() - k,
        {
            assert(all[k as int] == (self.pairs@[k as int].0@, self.pairs@[k as int].1@));
            if same(self.pairs[k].0.as_str(), key.as_str()) {
                self.pairs.set(k, (key, value));
                assert(self.view() =~= all.update(k as int, x));
                return;
            }
            k = k + 1;
        }
        self.pairs.push((key, value));
        assert(self.view() =~= all.push(x));
    }

    pub fn copy(&self) -> (r: Variables)
        ensures
            r.view() == self.view(),
    {
        let mut r: Vec<(String, String)> = Vec::new();
        let mut k: usize = 0;
        while k < self.pairs.len()
            invariant
                k <= self.pairs.len(),
                pairs(r@) =~= self.view().take(k as int),
            decreases self.pairs.len() - k,
        {
            let ghost before = pairs(r@);
            r.push((self.pairs[k].0.clone(), self.pairs[k].1.clone()));
            assert(pairs(r@) =~= before.push(self.view()[k as int]));
            k = k + 1;
        }
        assert(self.view().take(self.pairs.len() as int) =~= self.view());
        Variables { pairs: r }
    }

    /// The variables as the members of a JSON object.
    pub fn members(&self) -> (r: Vec<(String, Json)>)
        ensures
            member_models(r@) == text_members(self.view()),
    {
        let mut r: Vec<(String, Json)> = Vec::new();
        let mut k: usize = 0;
        while k < self.pairs.len()
            invariant
                k <= self.pairs.len(),
                member_models(r@) =~= text_members(self.view()).take(k as int),
            decreases self.pairs.len() - k,
        {
            let ghost before = member_models(r@);
            let name = self.pairs[k].0.clone();
            let value = Json::Text(self.pairs[k].1.clone());
            let ghost x = (name@, value.model());
            r.push((name, value));
            assert(member_models(r@) =~= before.push(x));
            assert(x == text_members(self.view())[k as int]);
            k = k + 1;
        }
        assert(text_members(self.view()).take(self.pairs.len() as int) =~= text_members(self.view()));
        r
    }
}

pub open spec fn text_members(m: Seq<(Seq<char>, Seq<char>)>) -> Seq<(Seq<char>, JsonV)> {
    Seq::new(m.len(), |i: int| (m[i].0, JsonV::Text(m[i].1)))
}

/// The text of a variable: a string itself, blank for `null`, else its JSON.
pub open spec fn rule_string(v: JsonV) -> Seq<char> {
    match v {
        JsonV::Text(s) => s,
        JsonV::Null => seq![],
        _ => json_text_of(v),
    }
}

pub fn value_to_rule_string(v: &Json) -> (r: String)
    ensures
        r@ == rule_string(v.model()),
{
    broadcast use {crate::ext::json::lemma_array_model, lemma_object_model};

    match v {
        Json::Text(s) => s.clone(),
        Json::Null => {
            let r = String::new();
            assert(r@ =~= seq![]);
            r
        },
        _ => json_to_text(v),
    }
}

/// The variables of the first `n` members of an object.
pub open spec fn variables_in(m: Seq<(Seq<char>, JsonV)>, n: int) -> Seq<(Seq<char>, Seq<char>)>
    decreases n,
{
    if n <= 0 {
        seq![]
    } else {
        with_pair(variables_in(m, n - 1), m[n - 1].0, rule_string(m[n - 1].1), 0)
    }
}

/// The variables that a text holds as a JSON object; none where it is no object.
pub open spec fn variables_of(text: Option<Seq<char>>) -> Seq<(Seq<char>, Seq<char>)> {
    match text {
        Some(t) => match json_of(t) {
            Some(JsonV::Object(m)) => variables_in(m, m.len() as int),
            _ => seq![],
        },
        None => seq![],
    }
}

pub fn parse_variable_map(variable: Option<&str>) -> (r: Variables)
    ensures
        r.view() == variables_of(opt_str(variable)),
{
    broadcast use {crate::ext::json::lemma_array_model, lemma_object_model};

    let mut r = Variables::new();
    let text = match variable {
        Some(t) => t,
        None => {
            return r;
        },
    };
    if let Some(Json::Object(m)) = parse_json(text) {
        let mut k: usize = 0;
        while k < m.len()
            invariant
                k <= m.len(),
                r.view() == variables_in(member_models(m@), k as int),
            decreases m.len() - k,
        {
            assert(member_models(m@)[k as int] == (m@[k as int].0@, m@[k as int].1.model()));
            r.insert(m[k].0.clone(), value_to_rule_string(&m[k].1));
            k = k + 1;
        }
        assert(member_models(m@).len() == m.len());
    }
    r
}

/// The JSON text of variables, if there are any.
pub open spec fn variables_text(m: Option<Seq<(Seq<char>, Seq<char>)>>) -> Option<Seq<char>> {
    match m {
        Some(p) => if p.len() == 0 {
            None
        } else {
            Some(json_text_of(JsonV::Object(text_members(p))))
        },
        None => None,
    }
}

/// Whether every name occurs once.
pub open spec fn names_once<V>(m: Seq<(Seq<char>, V)>) -> bool {
    forall|i: int, j: int| 0 <= i < j < m.len() ==> (#[trigger] m[i]).0 != (#[trigger] m[j]).0
}

proof fn lemma_set_names_once<V>(m: Seq<(Seq<char>, V)>, key: Seq<char>, value: V, k: int)
    requires
        names_once(m),
        0 <= k <= m.len(),
        forall|i: int| 0 <= i < k ==> (#[trigger] m[i]).0 != key,
    ensures
        names_once(with_pair(m, key, value, k)),
    decreases m.len() - k,
{
    if k < m.len() && m[k].0 != key {
        lemma_set_names_once(m, key, value, k + 1);
    }
}

/// Setting a variable keeps every name once.
pub proof fn law_names_stay_once<V>(m: Seq<(Seq<char>, V)>, key: Seq<char>, value: V)
    requires
        names_once(m),
    ensures
        names_once(with_pair(m, key, value, 0)),
{
    lemma_set_names_once(m, key, value, 0);
}

proof fn lemma_new_pair(m: Seq<(Seq<char>, Seq<char>)>, key: Seq<char>, value: Seq<char>, k: int)
    requires
        0 <= k <= m.len(),
        forall|i: int| 0 <= i < m.len() ==> (#[trigger] m[i]).0 != key,
    ensures
        with_pair(m, key, value, k) == m.push((key, value)),
    decreases m.len() - k,
{
    if k < m.len() {
        lemma_new_pair(m, key, value, k + 1);
    }
}

proof fn lemma_members_read(m: Seq<(Seq<char>, Seq<char>)>, n: int)
    requires
        names_once(m),
        0 <= n <= m.len(),
    ensures
        variables_in(text_members(m), n) =~= m.take(n),
    decreases n,
{
    if n > 0 {
        lemma_members_read(m, n - 1);
        lemma_new_pair(m.take(n - 1), m[n - 1].0, m[n - 1].1, 0);
        assert(m.take(n - 1).push(m[n - 1]) =~= m.take(n));
    }
}

/// Whether variables are read back from their text.
pub open spec fn read_back(m: Option<Seq<(Seq<char>, Seq<char>)>>, text: Option<Seq<char>>) -> bool {
    match m {
        Some(p) => names_once(p) ==> variables_of(text) == p,
        None => variables_of(text).len() == 0,
    }
}

/// Writes variables as JSON, from which they are read back.
pub fn serialize_variable_map(map: &Option<Variables>) -> (r: Option<String>)
    ensures
        opt_text(r) == variables_text(opt_variables(*map)),
        read_back(opt_variables(*map), opt_text(r)),
{
    broadcast use lemma_object_model;

    match map {
        Some(m) => {
            let ghost p = m.view();
            assert(p.len() == m.pairs.len());
            if m.pairs.len() == 0 {
                assert(p =~= seq![]);
                None
            } else {
                proof {
                    if names_once(p) {
                        lemma_members_read(p, p.len() as int);
                        assert(p.take(p.len() as int) =~= p);
                    }
                }
                Some(json_to_text(&Json::Object(m.members())))
            }
        },
        None => None,
    }
}

pub open spec fn opt_variables(o: Option<Variables>) -> Option<Seq<(Seq<char>, Seq<char>)>> {
    match o {
        Some(m) => Some(m.view()),
        None => None,
    }
}

/// The scopes that a rule reads variables from.
pub struct RuleVariableContext {
    pub rule_data: Option<Variables>,
    pub book: Option<Variables>,
    pub chapter: Option<Variables>,
    pub book_name: Option<String>,
    pub chapter_title: Option<String>,
}

pub struct CtxV {
    pub rule_data: Option<Seq<(Seq<char>, Seq<char>)>>,
    pub book: Option<Seq<(Seq<char>, Seq<char>)>>,
    pub chapter: Option<Seq<(Seq<char>, Seq<char>)>>,
    pub book_name: Option<Seq<char>>,
    pub chapter_title: Option<Seq<char>>,
}

pub open spec fn lookup_in(m: Option<Seq<(Seq<char>, Seq<char>)>>, key: Seq<char>) -> Option<Seq<char>> {
    match m {
        Some(p) => lookup(p, key, 0),
        None => None,
    }
}

/// The value that the context itself has for a key: the chapter's before the
/// book's before the result list's.
pub open spec fn context_value(c: CtxV, key: Seq<char>) -> Option<Seq<char>> {
    match lookup_in(c.chapter, key) {
        Some(v) => Some(v),
        None => match lookup_in(c.book, key) {
            Some(v) => Some(v),
            None => lookup_in(c.rule_data, key),
        },
    }
}

/// What a rule reads for a key, and the world after that. `bookName` and
/// `title` are the book's name and the chapter's title; the session is asked
/// last.
pub open spec fn context_get(c: CtxV, key: Seq<char>, w: World, o: Oracle) -> (Option<Seq<char>>, World) {
    if key == "bookName"@ {
        (c.book_name, w)
    } else if key == "title"@ {
        (c.chapter_title, w)
    } else {
        match context_value(c, key) {
            Some(v) => (Some(v), w),
            None => (
                match session_variable(w.state, key) {
                    Some(v) => Some(rule_string(v)),
                    None => None,
                },
                w,
            ),
        }
    }
}

/// The context and the world after a rule sets a key: in the innermost scope
/// that there is, else in the session.
pub open spec fn context_put(c: CtxV, key: Seq<char>, value: Seq<char>, w: World) -> (CtxV, World) {
    match (c.chapter, c.book, c.rule_data) {
        (Some(m), _, _) => (CtxV { chapter: Some(with_pair(m, key, value, 0)), ..c }, w),
        (None, Some(m), _) => (CtxV { book: Some(with_pair(m, key, value, 0)), ..c }, w),
        (None, None, Some(m)) => (CtxV { rule_data: Some(with_pair(m, key, value, 0)), ..c }, w),
        (None, None, None) => (c, World { state: sessions_with(w.state, key, JsonV::Text(value)), ..w }),
    }
}

/// What a rule sets it reads back, from any context that has a scope of its own,
/// and from any other within a session.
pub proof fn law_context_get_after_put(c: CtxV, key: Seq<char>, value: Seq<char>, w: World, o: Oracle)
    requires
        c.chapter is Some || c.book is Some || c.rule_data is Some || w.state.stack.len() > 0,
        key != "bookName"@,
        key != "title"@,
    ensures
        ({
            let x = context_put(c, key, value, w);
            context_get(x.0, key, x.1, o) == (Some(value), x.1)
        }),
        c.chapter is Some || c.book is Some || c.rule_data is Some ==> context_put(c, key, value, w).1 == w,
{
    match (c.chapter, c.book, c.rule_data) {
        (Some(m), _, _) => law_get_after_set(m, key, value),
        (None, Some(m), _) => law_get_after_set(m, key, value),
        (None, None, Some(m)) => law_get_after_set(m, key, value),
        (None, None, None) => law_session_variable_reads_back(w.state, key, JsonV::Text(value)),
    }
}

/// A value of the chapter hides one of the book, and that one of the result list.
pub proof fn law_inner_scope_first(c: CtxV, key: Seq<char>, w: World, o: Oracle)
    requires
        key != "bookName"@,
        key != "title"@,
    ensures
        lookup_in(c.chapter, key) is Some ==> context_get(c, key, w, o).0 == lookup_in(c.chapter, key),
        lookup_in(c.chapter, key) is None && lookup_in(c.book, key) is Some ==> context_get(c, key, w, o).0
            == lookup_in(c.book, key),
{
}

/// The members that a script sees of a scope: its variables, all of them again
/// under `variableMap`, and the names given.
pub open spec fn scope_object(m: Option<Seq<(Seq<char>, Seq<char>)>>) -> Seq<(Seq<char>, JsonV)> {
    let vars = match m {
        Some(p) => text_members(p),
        None => seq![],
    };
    with_pair(vars, "variableMap"@, JsonV::Object(vars), 0)
}

pub open spec fn book_object(c: CtxV) -> Seq<(Seq<char>, JsonV)> {
    let m = scope_object(c.book);
    match c.book_name {
        Some(n) => with_pair(with_pair(m, "name"@, JsonV::Text(n), 0), "bookName"@, JsonV::Text(n), 0),
        None => m,
    }
}

pub open spec fn chapter_object(c: CtxV) -> Seq<(Seq<char>, JsonV)> {
    let m = scope_object(c.chapter);
    match c.chapter_title {
        Some(t) => with_pair(m, "title"@, JsonV::Text(t), 0),
        None => m,
    }
}

/// The values that a script sees under the names `book`, `chapter` and `title`.
pub open spec fn bindings_of(c: CtxV) -> Seq<(Seq<char>, JsonV)> {
    seq![
        ("book"@, JsonV::Object(book_object(c))),
        ("chapter"@, JsonV::Object(chapter_object(c))),
        (
            "title"@,
            JsonV::Text(
                match c.chapter_title {
                    Some(t) => t,
                    None => seq![],
                },
            ),
        ),
    ]
}

fn copy_opt_text(o: &Option<String>) -> (r: Option<String>)
    ensures
        opt_text(r) == opt_text(*o),
{
    match o {
        Some(s) => Some(s.clone()),
        None => None,
    }
}

fn copy_opt_variables(o: &Option<Variables>) -> (r: Option<Variables>)
    ensures
        opt_variables(r) == opt_variables(*o),
{
    match o {
        Some(m) => Some(m.copy()),
        None => None,
    }
}

fn owned(o: Option<&str>) -> (r: Option<String>)
    ensures
        opt_text(r) == opt_str(o),
{
    match o {
        Some(s) => Some(s.to_owned()),
        None => None,
    }
}

pub fn script_scope(m: &Option<Variables>) -> (r: Vec<(String, Json)>)
    ensures
        member_models(r@) == scope_object(opt_variables(*m)),
{
    broadcast use lemma_object_model;

    let mut vars: Vec<(String, Json)> = Vec::new();
    let mut again: Vec<(String, Json)> = Vec::new();
    assert(member_models(vars@) =~= seq![]);
    if let Some(p) = m {
        vars = p.members();
        again = p.members();
    }
    set_member(&mut vars, "variableMap".to_owned(), Json::Object(again));
    vars
}

pub open spec fn empty_context() -> CtxV {
    CtxV { rule_data: None, book: None, chapter: None, book_name: None, chapter_title: None }
}

impl RuleVariableContext {
    pub open spec fn model(self) -> CtxV {
        CtxV {
            rule_data: opt_variables(self.rule_data),
            book: opt_variables(self.book),
            chapter: opt_variables(self.chapter),
            book_name: opt_text(self.book_name),
            chapter_title: opt_text(self.chapter_title),
        }
    }

    /// A context without any scope.
    pub fn empty() -> (r: Self)
        ensures
            r.model() == empty_context(),
    {
        RuleVariableContext { rule_data: None, book: None, chapter: None, book_name: None, chapter_title: None }
    }

    /// The context of a book, with the variables that it was saved with.
    pub fn for_book(variable: Option<&str>, book_name: Option<&str>) -> (r: Self)
        ensures
            r.model() == (CtxV {
                book: Some(variables_of(opt_str(variable))),
                book_name: opt_str(book_name),
                ..empty_context()
            }),
    {
        RuleVariableContext {
            rule_data: None,
            book: Some(parse_variable_map(variable)),
            chapter: None,
            book_name: owned(book_name),
            chapter_title: None,
        }
    }

    /// The context of an item of a result list, without variables yet.
    pub fn for_search_item() -> (r: Self)
        ensures
            r.model() == (CtxV { rule_data: Some(seq![]), book: Some(seq![]), ..empty_context() }),
    {
        RuleVariableContext {
            rule_data: Some(Variables::new()),
            book: Some(Variables::new()),
            chapter: None,
            book_name: None,
            chapter_title: None,
        }
    }

    /// The context of a chapter of this context's book.
    pub fn for_chapter(&self, variable: Option<&str>, title: &str) -> (r: Self)
        ensures
            r.model() == (CtxV {
                chapter: Some(variables_of(opt_str(variable))),
                chapter_title: Some(title@),
                ..self.model()
            }),
    {
        RuleVariableContext {
            rule_data: copy_opt_variables(&self.rule_data),
            book: copy_opt_variables(&self.book),
            chapter: Some(parse_variable_map(variable)),
            book_name: copy_opt_text(&self.book_name),
            chapter_title: Some(title.to_owned()),
        }
    }

    /// Reads a variable; see [`context_get`].
    pub fn get<E: ScriptEngine>(&self, key: &str, host: &mut Host<E>) -> (r: Option<String>)
        ensures
            offline(old(host).log(), final(host).log()),
            forall|o: Oracle| #[trigger]
                agrees(final(host).log(), o) ==> context_get(self.model(), key@, old(host).world(), o) == (
                    opt_text(r),
                    final(host).world(),
                ),
    {
        broadcast use group_log;

        if same(key, "bookName") {
            return copy_opt_text(&self.book_name);
        }
        if same(key, "title") {
            return copy_opt_text(&self.chapter_title);
        }
        if let Some(m) = &self.chapter {
            if let Some(v) = m.get(key) {
                return Some(v);
            }
        }
        if let Some(m) = &self.book {
            if let Some(v) = m.get(key) {
                return Some(v);
            }
        }
        if let Some(m) = &self.rule_data {
            if let Some(v) = m.get(key) {
                return Some(v);
            }
        }
        match host.get_variable(key) {
            Some(v) => Some(value_to_rule_string(&v)),
            None => None,
        }
    }

    /// Sets a variable; see [`context_put`].
    pub fn insert<E: ScriptEngine>(&mut self, key: String, value: String, host: &mut Host<E>)
        ensures
            offline(old(host).log(), final(host).log()),
            (final(self).model(), final(host).world()) == context_put(
                old(self).model(),
                key@,
                value@,
                old(host).world(),
            ),
    {
        broadcast use group_log;

        if self.chapter.is_some() {
            let mut m = self.chapter.take().unwrap();
            m.insert(key, value);
            self.chapter = Some(m);
        } else if self.book.is_some() {
            let mut m = self.book.take().unwrap();
            m.insert(key, value);
            self.book = Some(m);
        } else if self.rule_data.is_some() {
            let mut m = self.rule_data.take().unwrap();
            m.insert(key, value);
            self.rule_data = Some(m);
        } else {
            host.set_variable(key.as_str(), &Json::Text(value));
        }
    }

    /// The book's variables as JSON, if there are any.
    pub fn book_variable(&self) -> (r: Option<String>)
        ensures
            opt_text(r) == variables_text(self.model().book),
            read_back(self.model().book, opt_text(r)),
    {
        serialize_variable_map(&self.book)
    }

    /// The chapter's variables as JSON, if there are any.
    pub fn chapter_variable(&self) -> (r: Option<String>)
        ensures
            opt_text(r) == variables_text(self.model().chapter),
            read_back(self.model().chapter, opt_text(r)),
    {
        serialize_variable_map(&self.chapter)
    }

    /// The values that a script sees; see [`bindings_of`].
    pub fn js_bindings(&self) -> (r: Vec<(String, Json)>)
        ensures
            member_models(r@) == bindings_of(self.model()),
    {
        broadcast use lemma_object_model;

        let mut book = script_scope(&self.book);
        if let Some(name) = &self.book_name {
            set_member(&mut book, "name".to_owned(), Json::Text(name.clone()));
            set_member(&mut book, "bookName".to_owned(), Json::Text(name.clone()));
        }
        let mut chapter = script_scope(&self.chapter);
        if let Some(title) = &self.chapter_title {
            set_member(&mut chapter, "title".to_owned(), Json::Text(title.clone()));
        }
        let title = match &self.chapter_title {
            Some(t) => t.clone(),
            None => String::new(),
        };
        let mut r: Vec<(String, Json)> = Vec::new();
        r.push(("book".to_owned(), Json::Object(book)));
        r.push(("chapter".to_owned(), Json::Object(chapter)));
        r.push(("title".to_owned(), Json::Text(title)));
        assert(self.chapter_title is None ==> r@[2].1.model() == JsonV::Text(seq![])) by {
            if self.chapter_title is None {
                assert(r@[2].1->Text_0@ =~= seq![]);
            }
        }
        assert(member_models(r@) =~= bindings_of(self.model()));
        r
    }
}

} // verus!
