//! What scripts keep: the variables that they read, and a cache whose entries
//! expire.

use crate::crawler::session::{with_variable, ActiveSession, StateV};
use crate::crawler::url_rule::{plain_text, value_to_string};
use crate::ext::json::{
    json_of, json_text_of, json_to_text, lemma_array_model, lemma_object_model, member_models, member_of, opt_json,
    parse_json, Json, JsonV,
};
use crate::parser::context::{law_get_after_set, law_set_keeps_others, lookup, with_pair};
use crate::parser::field::{or_blank, text_or_blank};
use crate::util::chars::{copy, is_empty_text, opt_str, opt_text, same};
use vstd::prelude::*;
use vstd::string::*;

verus! {

/// A member of an object as text, if it has one with something in it.
pub open spec fn member_text(v: Option<JsonV>, key: Seq<char>) -> Option<Seq<char>> {
    match v {
        Some(x) => match member_of(x, key) {
            Some(m) => filled(or_blank(plain_text(m))),
            None => None,
        },
        None => None,
    }
}

/// A text with something in it.
pub open spec fn filled(t: Seq<char>) -> Option<Seq<char>> {
    if t.len() > 0 {
        Some(t)
    } else {
        None
    }
}

pub fn fill(t: String) -> (r: Option<String>)
    ensures
        opt_text(r) == filled(t@),
{
    if is_empty_text(t.as_str()) {
        None
    } else {
        Some(t)
    }
}

pub fn binding<'a>(bindings: &'a Vec<(String, Json)>, key: &str) -> (r: Option<&'a Json>)
    ensures
        match r {
            Some(x) => lookup(member_models(bindings@), key@, 0) == Some(x.model()),
            None => lookup(member_models(bindings@), key@, 0) is None,
        },
{
    let ghost all = member_models(bindings@);
    let mut k: usize = 0;
    while k < bindings.len()
        invariant
            k <= bindings.len(),
            all == member_models(bindings@),
            lookup(all, key@, 0) == lookup(all, key@, k as int),
        decreases bindings.len() - k,
    {
        assert(all[k as int] == (bindings@[k as int].0@, bindings@[k as int].1.model()));
        if same(bindings[k].0.as_str(), key) {
            return Some(&bindings[k].1);
        }
        k = k + 1;
    }
    None
}

pub fn binding_object_value(value: Option<&Json>, key: &str) -> (r: Option<String>)
    ensures
        match value {
            Some(x) => opt_text(r) == member_text(Some(x.model()), key@),
            None => r is None,
        },
{
    match value {
        Some(x) => match x.get(key) {
            Some(m) => fill(text_or_blank(value_to_string(m))),
            None => None,
        },
        None => None,
    }
}

/// A variable in a scope: in its map of variables, else a member of the scope.
pub open spec fn scope_variable(scope: Option<JsonV>, key: Seq<char>) -> Option<Seq<char>> {
    match scope {
        Some(x) => {
            let found = match member_of(x, "variableMap"@) {
                Some(m) => match member_of(m, key) {
                    Some(v) => Some(v),
                    None => member_of(x, key),
                },
                None => member_of(x, key),
            };
            match found {
                Some(v) => filled(or_blank(plain_text(v))),
                None => None,
            }
        },
        None => None,
    }
}

pub fn find_in_scope(scope: Option<&Json>, key: &str) -> (r: Option<String>)
    ensures
        match scope {
            Some(x) => opt_text(r) == scope_variable(Some(x.model()), key@),
            None => r is None,
        },
{
    let x = match scope {
        Some(x) => x,
        None => {
            return None;
        },
    };
    let found = match x.get("variableMap") {
        Some(m) => match m.get(key) {
            Some(v) => Some(v),
            None => x.get(key),
        },
        None => x.get(key),
    };
    match found {
        Some(v) => fill(text_or_blank(value_to_string(v))),
        None => None,
    }
}

/// What a script sets when it sets a variable: one by name, or with one argument
/// alone the variable of the source.
pub open spec fn variable_to_set(first: Seq<char>, second: Option<Seq<char>>) -> (Seq<char>, Seq<char>) {
    match second {
        Some(v) => (first, v),
        None => (seq![], first),
    }
}

/// Sets a variable of the session for a script and gives its value back.
pub fn set_source_variable(session: &mut ActiveSession, first: &str, second: Option<&str>) -> (r: String)
    ensures
        ({
            let (key, value) = variable_to_set(first@, opt_str(second));
            &&& r@ == value
            &&& final(session).model() == (StateV {
                variables: with_variable(old(session).model().variables, key, JsonV::Text(value)),
                ..old(session).model()
            })
        }),
{
    match second {
        Some(v) => {
            session.set_variable(first, Json::Text(copy(v)));
            copy(v)
        },
        None => {
            proof {
                reveal_strlit("");
                assert(""@ =~= seq![]);
            }
            session.set_variable("", Json::Text(copy(first)));
            copy(first)
        },
    }
}

/// The first of two texts that is there.
pub open spec fn either(a: Option<Seq<char>>, b: Option<Seq<char>>) -> Option<Seq<char>> {
    match a {
        Some(t) => Some(t),
        None => b,
    }
}

/// A variable of a rule: the names of the book and the chapter, else what the
/// chapter, the book and the data of the rule hold, in this order.
pub open spec fn rule_variable(b: Seq<(Seq<char>, JsonV)>, key: Seq<char>) -> Option<Seq<char>> {
    if key == "bookName"@ {
        either(member_text(lookup(b, "book"@, 0), "bookName"@), member_text(lookup(b, "book"@, 0), "name"@))
    } else if key == "title"@ {
        either(
            member_text(lookup(b, "chapter"@, 0), "title"@),
            match lookup(b, "title"@, 0) {
                Some(v) => filled(or_blank(plain_text(v))),
                None => None,
            },
        )
    } else {
        either(
            scope_variable(lookup(b, "chapter"@, 0), key),
            either(
                scope_variable(lookup(b, "book"@, 0), key),
                either(
                    scope_variable(lookup(b, "ruleData"@, 0), key),
                    scope_variable(lookup(b, "rule_data"@, 0), key),
                ),
            ),
        )
    }
}

/// Looks a variable of a rule up.
pub fn scoped_java_variable(bindings: &Vec<(String, Json)>, key: &str) -> (r: Option<String>)
    ensures
        opt_text(r) == rule_variable(member_models(bindings@), key@),
{
    if same(key, "bookName") {
        let book = binding(bindings, "book");
        return match binding_object_value(book, "bookName") {
            Some(t) => Some(t),
            None => binding_object_value(book, "name"),
        };
    }
    if same(key, "title") {
        return match binding_object_value(binding(bindings, "chapter"), "title") {
            Some(t) => Some(t),
            None => match binding(bindings, "title") {
                Some(v) => fill(text_or_blank(value_to_string(v))),
                None => None,
            },
        };
    }
    if let Some(t) = find_in_scope(binding(bindings, "chapter"), key) {
        return Some(t);
    }
    if let Some(t) = find_in_scope(binding(bindings, "book"), key) {
        return Some(t);
    }
    if let Some(t) = find_in_scope(binding(bindings, "ruleData"), key) {
        return Some(t);
    }
    find_in_scope(binding(bindings, "rule_data"), key)
}

/// What `java.get` reads: a variable of the rule, else of the session, else what
/// scripts put.
pub open spec fn variable_read(
    b: Seq<(Seq<char>, JsonV)>,
    key: Seq<char>,
    session: Option<JsonV>,
    stored: Option<Seq<char>>,
) -> Seq<char> {
    let of_session = match session {
        Some(v) => filled(or_blank(plain_text(v))),
        None => None,
    };
    or_blank(either(rule_variable(b, key), either(of_session, stored)))
}

/// Reads a variable for a script, from the rule, the session or what scripts put.
pub fn java_variable(bindings: &Vec<(String, Json)>, key: &str, session: Option<Json>, stored: Option<String>) -> (r: String)
    ensures
        r@ == variable_read(member_models(bindings@), key@, opt_json(session), opt_text(stored)),
{
    if let Some(t) = scoped_java_variable(bindings, key) {
        return t;
    }
    if let Some(v) = session {
        if let Some(t) = fill(text_or_blank(value_to_string(&v))) {
            return t;
        }
    }
    text_or_blank(stored)
}

/// The text of a value of the session: a string as it is, all else as JSON.
pub open spec fn session_text(v: Option<JsonV>) -> Seq<char> {
    match v {
        Some(JsonV::Text(t)) => t,
        Some(x) => json_text_of(x),
        None => seq![],
    }
}

/// The text of a value of the session.
pub fn session_value_text(v: Option<Json>) -> (r: String)
    ensures
        r@ == session_text(opt_json(v)),
{
    broadcast use {lemma_array_model, lemma_object_model};

    match v {
        Some(Json::Text(t)) => t,
        Some(x) => json_to_text(&x),
        None => text_or_blank(None),
    }
}

/// The headers of a login as a script gives them: JSON, else a text.
pub fn login_header_value(text: &str) -> (r: Json)
    ensures
        r.model() == match json_of(text@) {
            Some(v) => v,
            None => JsonV::Text(text@),
        },
{
    match parse_json(text) {
        Some(v) => v,
        None => Json::Text(copy(text)),
    }
}

/// An entry of the cache: its value, and when it expires, if it does.
pub struct JsCacheEntry {
    pub value: String,
    pub expires_at: Option<u64>,
}

pub struct CacheV {
    pub value: Seq<char>,
    pub expires_at: Option<u64>,
}

/// A cache for scripts. Times are in milliseconds.
pub struct ScriptCache {
    entries: Vec<(String, JsCacheEntry)>,
}

pub open spec fn cache_models(v: Seq<(String, JsCacheEntry)>) -> Seq<(Seq<char>, CacheV)> {
    Seq::new(v.len(), |i: int| (v[i].0@, CacheV { value: v[i].1.value@, expires_at: v[i].1.expires_at }))
}

/// Whether an entry has expired.
pub open spec fn is_expired(e: CacheV, now: u64) -> bool {
    match e.expires_at {
        Some(t) => now >= t,
        None => false,
    }
}

/// The entries without one key.
pub open spec fn without_key(m: Seq<(Seq<char>, CacheV)>, key: Seq<char>, n: int) -> Seq<(Seq<char>, CacheV)>
    decreases n,
{
    if n <= 0 {
        seq![]
    } else if m[n - 1].0 == key {
        without_key(m, key, n - 1)
    } else {
        without_key(m, key, n - 1).push(m[n - 1])
    }
}

/// The value of a key that has not expired.
pub open spec fn cached_value(m: Seq<(Seq<char>, CacheV)>, key: Seq<char>, now: u64) -> Option<Seq<char>> {
    match lookup(m, key, 0) {
        Some(e) => if is_expired(e, now) {
            None
        } else {
            Some(e.value)
        },
        None => None,
    }
}

/// When an entry that is kept so many seconds expires; never where the number is
/// not positive or beyond all time.
pub open spec fn expiry(now: u64, seconds: Option<i64>) -> Option<u64> {
    match seconds {
        Some(n) => if n > 0 && now + n * 1000 <= u64::MAX {
            Some((now + n * 1000) as u64)
        } else {
            None
        },
        None => None,
    }
}

impl ScriptCache {
    pub closed spec fn view(&self) -> Seq<(Seq<char>, CacheV)> {
        cache_models(self.entries@)
    }

    pub fn new() -> (r: ScriptCache)
        ensures
            r.view() == Seq::<(Seq<char>, CacheV)>::empty(),
    {
        let r = ScriptCache { entries: Vec::new() };
        assert(r.view() =~= Seq::empty());
        r
    }

    fn position(&self, key: &str) -> (r: Option<usize>)
        ensures
            match r {
                Some(k) => k < self.view().len() && self.view()[k as int].0 == key@ && lookup(self.view(), key@, 0) == Some(
                    self.view()[k as int].1,
                ) && (forall|i: int| 0 <= i < k ==> (#[trigger] self.view()[i]).0 != key@),
                None => lookup(self.view(), key@, 0) is None && forall|i: int|
                    0 <= i < self.view().len() ==> (#[trigger] self.view()[i]).0 != key@,
            },
    {
        let ghost all = self.view();
        let mut k: usize = 0;
        while k < self.entries.len()
            invariant
                k <= self.entries.len(),
                all == self.view(),
                lookup(all, key@, 0) == lookup(all, key@, k as int),
                forall|i: int| 0 <= i < k ==> (#[trigger] all[i]).0 != key@,
            decreases self.entries.len() - k,
        {
            assert(all[k as int].0 == self.entries@[k as int].0@);
            if same(self.entries[k].0.as_str(), key) {
                return Some(k);
            }
            k = k + 1;
        }
        None
    }

    /// Drops a key; whether it was there.
    pub fn delete(&mut self, key: &str) -> (r: bool)
        ensures
            final(self).view() == without_key(old(self).view(), key@, old(self).view().len() as int),
            r == (lookup(old(self).view(), key@, 0) is Some),
    {
        let there = self.position(key).is_some();
        let ghost all = self.view();
        let ghost total = self.entries.len() as int;
        let mut left: usize = self.entries.len();
        let mut k: usize = 0;
        assert(all.skip(0) =~= all);
        assert(self.view().take(0) =~= seq![]);
        while left > 0
            invariant
                left <= total,
                total == all.len(),
                k + left == self.entries.len(),
                self.view().take(k as int) =~= without_key(all, key@, total - left),
                self.view().skip(k as int) =~= all.skip(total - left),
            decreases left,
        {
            let ghost was = self.view();
            assert(was.skip(k as int)[0] == was[k as int]);
            assert(all.skip(total - left)[0] == all[total - left]);
            if same(self.entries[k].0.as_str(), key) {
                let _ = self.entries.remove(k);
                assert(self.view() =~= was.remove(k as int));
                assert(self.view().take(k as int) =~= was.take(k as int));
                assert(self.view().skip(k as int) =~= was.skip(k as int).skip(1));
                assert(all.skip(total - left).skip(1) =~= all.skip(total - left + 1));
            } else {
                assert(was.take(k + 1) =~= was.take(k as int).push(was[k as int]));
                assert(was.skip(k + 1) =~= was.skip(k as int).skip(1));
                assert(all.skip(total - left).skip(1) =~= all.skip(total - left + 1));
                k = k + 1;
            }
            left = left - 1;
        }
        assert(self.view().take(k as int) =~= self.view());
        there
    }

    /// The value of a key; an entry that has expired is dropped.
    pub fn get(&mut self, key: &str, now: u64) -> (r: Option<String>)
        ensures
            opt_text(r) == cached_value(old(self).view(), key@, now),
            final(self).view() == if lookup(old(self).view(), key@, 0) is Some && r is None {
                without_key(old(self).view(), key@, old(self).view().len() as int)
            } else {
                old(self).view()
            },
    {
        match self.position(key) {
            Some(k) => {
                let expired = match self.entries[k].1.expires_at {
                    Some(t) => now >= t,
                    None => false,
                };
                if expired {
                    let _ = self.delete(key);
                    None
                } else {
                    Some(self.entries[k].1.value.clone())
                }
            },
            None => None,
        }
    }

    /// Keeps a value under a key, for so many seconds.
    pub fn put(&mut self, key: &str, value: String, save_time_secs: Option<i64>, now: u64)
        ensures
            final(self).view() == with_pair(
                old(self).view(),
                key@,
                CacheV { value: value@, expires_at: expiry(now, save_time_secs) },
                0,
            ),
    {
        let ghost all = self.view();
        let ghost v = CacheV { value: value@, expires_at: expiry(now, save_time_secs) };
        let expires_at: Option<u64> = match save_time_secs {
            Some(n) => {
                let end: i128 = now as i128 + n as i128 * 1000;
                if n > 0 && end <= 18446744073709551615 {
                    Some(end as u64)
                } else {
                    None
                }
            },
            None => None,
        };
        let entry = JsCacheEntry { value, expires_at };
        match self.position(key) {
            Some(k) => {
                self.entries.set(k, (copy(key), entry));
                assert(self.view() =~= all.update(k as int, (key@, v)));
                proof {
                    lemma_set_at(all, key@, v, k as int, 0);
                }
            },
            None => {
                self.entries.push((copy(key), entry));
                assert(self.view() =~= all.push((key@, v)));
                proof {
                    lemma_set_new(all, key@, v, 0);
                }
            },
        }
    }
}

proof fn lemma_set_at(m: Seq<(Seq<char>, CacheV)>, key: Seq<char>, v: CacheV, at: int, k: int)
    requires
        0 <= k <= at < m.len(),
        m[at].0 == key,
        forall|i: int| 0 <= i < at ==> (#[trigger] m[i]).0 != key,
    ensures
        with_pair(m, key, v, k) == m.update(at, (key, v)),
    decreases at - k,
{
    if k < at {
        lemma_set_at(m, key, v, at, k + 1);
    }
}

proof fn lemma_set_new(m: Seq<(Seq<char>, CacheV)>, key: Seq<char>, v: CacheV, k: int)
    requires
        0 <= k <= m.len(),
        forall|i: int| 0 <= i < m.len() ==> (#[trigger] m[i]).0 != key,
    ensures
        with_pair(m, key, v, k) == m.push((key, v)),
    decreases m.len() - k,
{
    if k < m.len() {
        lemma_set_new(m, key, v, k + 1);
    }
}

/// What is put in the cache is read back as long as it has not expired.
pub proof fn law_cache_reads_back(m: Seq<(Seq<char>, CacheV)>, key: Seq<char>, v: CacheV, now: u64)
    requires
        !is_expired(v, now),
    ensures
        cached_value(with_pair(m, key, v, 0), key, now) == Some(v.value),
{
    law_get_after_set(m, key, v);
}

/// What has expired is not read.
pub proof fn law_cache_expires(m: Seq<(Seq<char>, CacheV)>, key: Seq<char>, v: CacheV, now: u64)
    requires
        is_expired(v, now),
    ensures
        cached_value(with_pair(m, key, v, 0), key, now) is None,
{
    law_get_after_set(m, key, v);
}

/// Putting a key in the cache leaves the values of all other keys.
pub proof fn law_cache_keeps_others(m: Seq<(Seq<char>, CacheV)>, key: Seq<char>, v: CacheV, other: Seq<char>, now: u64)
    requires
        other != key,
    ensures
        cached_value(with_pair(m, key, v, 0), other, now) == cached_value(m, other, now),
{
    law_set_keeps_others(m, key, v, other);
}

} // verus!
