//! JSON values, as `serde_json` reads and writes them, and the selection in
//! them by `jsonpath_lib`.

use crate::parser::context::with_pair;
use crate::parser::path_guard::may_abort;
use crate::util::chars::texts;
use vstd::prelude::*;

verus! {

/// A number of `serde_json`.
#[verifier::external_type_specification]
#[verifier::external_body]
pub struct ExNumber(serde_json::Number);

/// A value of `serde_json`.
#[verifier::external_type_specification]
#[verifier::external_body]
pub struct ExJsonValue(serde_json::Value);

/// A JSON number: the text that it is written as, and the number itself.
#[derive(Debug)]
pub struct JsonNumber {
    text: String,
    number: serde_json::Number,
}

impl JsonNumber {
    pub closed spec fn text(&self) -> Seq<char> {
        self.text@
    }

    pub fn to_text(&self) -> (r: String)
        ensures
            r@ == self.text(),
    {
        self.text.clone()
    }
}

/// A JSON value. The members of an object keep their order.
#[derive(Debug)]
pub enum Json {
    Null,
    Bool(bool),
    Number(JsonNumber),
    Text(String),
    Array(Vec<Json>),
    Object(Vec<(String, Json)>),
}

pub enum JsonV {
    Null,
    Bool(bool),
    Number(Seq<char>),
    Text(Seq<char>),
    Array(Seq<JsonV>),
    Object(Seq<(Seq<char>, JsonV)>),
}

impl Json {
    pub open spec fn model(self) -> JsonV
        decreases self,
    {
        match self {
            Json::Null => JsonV::Null,
            Json::Bool(b) => JsonV::Bool(b),
            Json::Number(n) => JsonV::Number(n.text()),
            Json::Text(s) => JsonV::Text(s@),
            Json::Array(v) => JsonV::Array(
                Seq::new(
                    v@.len(),
                    |i: int|
                        if 0 <= i < v@.len() {
                            v@[i].model()
                        } else {
                            JsonV::Null
                        },
                ),
            ),
            Json::Object(v) => JsonV::Object(
                Seq::new(
                    v@.len(),
                    |i: int|
                        if 0 <= i < v@.len() {
                            (v@[i].0@, v@[i].1.model())
                        } else {
                            (seq![], JsonV::Null)
                        },
                ),
            ),
        }
    }
}

pub open spec fn json_models(v: Seq<Json>) -> Seq<JsonV> {
    Seq::new(v.len(), |i: int| v[i].model())
}

pub open spec fn member_models(v: Seq<(String, Json)>) -> Seq<(Seq<char>, JsonV)> {
    Seq::new(v.len(), |i: int| (v[i].0@, v[i].1.model()))
}

pub broadcast proof fn lemma_array_model(v: Vec<Json>)
    ensures
        #[trigger] Json::Array(v).model() == JsonV::Array(json_models(v@)),
{
    assert(Json::Array(v).model()->Array_0 =~= json_models(v@));
}

pub broadcast proof fn lemma_object_model(v: Vec<(String, Json)>)
    ensures
        #[trigger] Json::Object(v).model() == JsonV::Object(member_models(v@)),
{
    assert(Json::Object(v).model()->Object_0 =~= member_models(v@));
}

pub open spec fn opt_json(o: Option<Json>) -> Option<JsonV> {
    match o {
        Some(v) => Some(v.model()),
        None => None,
    }
}

/// What `serde_json` reads from a text: a value, or what it says of a text that
/// is no JSON.
pub uninterp spec fn json_read(text: Seq<char>) -> Result<JsonV, Seq<char>>;

/// The value that a text holds; `None` where it is no JSON.
pub open spec fn json_of(text: Seq<char>) -> Option<JsonV> {
    match json_read(text) {
        Ok(v) => Some(v),
        Err(_) => None,
    }
}

/// The text that `serde_json` writes a value as, without white space.
pub uninterp spec fn json_text_of(value: JsonV) -> Seq<char>;

/// The values that `jsonpath_lib` selects by a path; `None` for a bad path.
pub uninterp spec fn jsonpath_of(value: JsonV, path: Seq<char>) -> Option<Seq<JsonV>>;

/// The texts in a value that was read from `n` characters: a string is shorter
/// than the text around it.
pub open spec fn member_texts_shorter(v: JsonV, n: int) -> bool {
    match v {
        JsonV::Object(m) => forall|i: int|
            0 <= i < m.len() ==> ((#[trigger] m[i]).1 is Text ==> m[i].1->Text_0.len() < n),
        _ => true,
    }
}

/// `serde_json::from_str` into a `serde_json::Value`, or the text of its error.
///
/// A string member takes at least its own characters and two quotes of the
/// text, so it is shorter than the text.
#[verifier::external_body]
pub fn read_json(text: &str) -> (r: Result<Json, String>)
    ensures
        match r {
            Ok(v) => json_read(text@) == Ok::<JsonV, Seq<char>>(v.model()) && member_texts_shorter(
                v.model(),
                text@.len() as int,
            ),
            Err(e) => json_read(text@) == Err::<JsonV, Seq<char>>(e@),
        },
{
    let read: Result<serde_json::Value, _> = serde_json::from_str(text);
    read.map(|v| from_value(&v)).map_err(|e| e.to_string())
}

/// Reads a JSON value.
pub fn parse_json(text: &str) -> (r: Option<Json>)
    ensures
        opt_json(r) == json_of(text@),
{
    match read_json(text) {
        Ok(v) => Some(v),
        Err(_) => None,
    }
}

/// Whether a value is an integer of 64 bits, signed or not.
pub open spec fn is_whole(v: JsonV) -> bool {
    exists|n: int| i64::MIN <= n <= u64::MAX && v == JsonV::Number(#[trigger] integer_text(n))
}

/// Whether a value is a list of integers and texts, or an object of texts whose
/// names occur once.
pub open spec fn is_flat(v: JsonV) -> bool {
    match v {
        JsonV::Array(a) => forall|i: int| 0 <= i < a.len() ==> is_whole(#[trigger] a[i]) || a[i] is Text,
        JsonV::Object(m) => {
            &&& forall|i: int| 0 <= i < m.len() ==> (#[trigger] m[i]).1 is Text
            &&& forall|i: int, j: int| 0 <= i < j < m.len() ==> (#[trigger] m[i]).0 != (#[trigger] m[j]).0
        },
        _ => false,
    }
}

/// `serde_json::to_string` of a value. A flat value is read back from its text:
/// strings are escaped, integers are written in decimal digits, and objects keep
/// the order of their members (the feature `preserve_order`, which `jsonpath_lib`
/// switches on).
#[verifier::external_body]
pub fn json_to_text(value: &Json) -> (r: String)
    ensures
        r@ == json_text_of(value.model()),
        is_flat(value.model()) ==> json_of(r@) == Some(value.model()),
{
    to_value(value).to_string()
}

/// `jsonpath_lib::select`: the selected values, in its order. It aborts on some
/// filters and on a range that steps by zero, which are left out.
#[verifier::external_body]
pub(crate) fn select_path(value: &Json, path: &str) -> (r: Option<Vec<Json>>)
    requires
        !may_abort(path@),
    ensures
        match r {
            Some(v) => jsonpath_of(value.model(), path@) == Some(json_models(v@)),
            None => jsonpath_of(value.model(), path@) is None,
        },
{
    let value = to_value(value);
    let found = jsonpath_lib::select(&value, path).ok()?;
    Some(found.into_iter().map(from_value).collect())
}

/// A `serde_json` value as a value of this crate, one for one.
#[verifier::external_body]
fn from_value(value: &serde_json::Value) -> (r: Json) {
    match value {
        serde_json::Value::Null => Json::Null,
        serde_json::Value::Bool(b) => Json::Bool(*b),
        serde_json::Value::Number(n) => Json::Number(JsonNumber { text: n.to_string(), number: n.clone() }),
        serde_json::Value::String(s) => Json::Text(s.clone()),
        serde_json::Value::Array(v) => Json::Array(v.iter().map(from_value).collect()),
        serde_json::Value::Object(m) => Json::Object(m.iter().map(|(k, v)| (k.clone(), from_value(v))).collect()),
    }
}

/// A value of this crate as a `serde_json` value, one for one.
#[verifier::external_body]
fn to_value(value: &Json) -> (r: serde_json::Value) {
    match value {
        Json::Null => serde_json::Value::Null,
        Json::Bool(b) => serde_json::Value::Bool(*b),
        Json::Number(n) => serde_json::Value::Number(n.number.clone()),
        Json::Text(s) => serde_json::Value::String(s.clone()),
        Json::Array(v) => serde_json::Value::Array(v.iter().map(to_value).collect()),
        Json::Object(m) => serde_json::Value::Object(m.iter().map(|(k, v)| (k.clone(), to_value(v))).collect()),
    }
}

/// `Clone` of a `serde_json::Number` keeps the number.
#[verifier::external_body]
fn copy_number(n: &JsonNumber) -> (r: JsonNumber)
    ensures
        r.text() == n.text(),
{
    JsonNumber { text: n.text.clone(), number: n.number.clone() }
}

/// An integer in decimal digits, with a sign where it is negative.
pub open spec fn integer_text(n: int) -> Seq<char> {
    if n < 0 {
        seq!['-'] + crate::util::chars::decimal_of(-n)
    } else {
        crate::util::chars::decimal_of(n)
    }
}

/// `serde_json::Number::from_i128`: an integer, which is written in decimal
/// digits. It is defined for the integers that fit in 64 bits.
#[verifier::external_body]
pub fn json_integer(n: i128) -> (r: JsonNumber)
    requires
        i64::MIN <= n <= u64::MAX,
    ensures
        r.text() == integer_text(n as int),
{
    let number = serde_json::Number::from_i128(n).unwrap();
    JsonNumber { text: number.to_string(), number }
}

/// A copy of a value.
pub fn copy_json(value: &Json) -> (r: Json)
    ensures
        r.model() == value.model(),
    decreases *value,
{
    broadcast use {lemma_array_model, lemma_object_model};

    match value {
        Json::Null => Json::Null,
        Json::Bool(b) => Json::Bool(*b),
        Json::Number(n) => Json::Number(copy_number(n)),
        Json::Text(s) => Json::Text(s.clone()),
        Json::Array(v) => {
            let mut r: Vec<Json> = Vec::new();
            let mut i: usize = 0;
            while i < v.len()
                invariant
                    i <= v.len(),
                    value == Json::Array(*v),
                    json_models(r@) =~= json_models(v@).take(i as int),
                decreases v.len() - i,
            {
                let ghost before = json_models(r@);
                assert(decreases_to!(*value => value->Array_0));
                assert(decreases_to!(*v => v@[i as int]));
                let x = copy_json(&v[i]);
                let ghost m = x.model();
                r.push(x);
                assert(json_models(r@) =~= before.push(m));
                i = i + 1;
            }
            assert(json_models(v@).take(v.len() as int) =~= json_models(v@));
            Json::Array(r)
        },
        Json::Object(v) => {
            let mut r: Vec<(String, Json)> = Vec::new();
            let mut i: usize = 0;
            while i < v.len()
                invariant
                    i <= v.len(),
                    value == Json::Object(*v),
                    member_models(r@) =~= member_models(v@).take(i as int),
                decreases v.len() - i,
            {
                let ghost before = member_models(r@);
                assert(decreases_to!(*value => value->Object_0));
                assert(decreases_to!(*v => v@[i as int]));
                assert(decreases_to!(v@[i as int] => v@[i as int].1));
                let x = copy_json(&v[i].1);
                let k = v[i].0.clone();
                let ghost m = (k@, x.model());
                r.push((k, x));
                assert(member_models(r@) =~= before.push(m));
                i = i + 1;
            }
            assert(member_models(v@).take(v.len() as int) =~= member_models(v@));
            Json::Object(r)
        },
    }
}

/// The last value of a member among the first `n`.
pub open spec fn member_in(m: Seq<(Seq<char>, JsonV)>, key: Seq<char>, n: int) -> Option<JsonV>
    decreases n,
{
    if n <= 0 {
        None
    } else if m[n - 1].0 == key {
        Some(m[n - 1].1)
    } else {
        member_in(m, key, n - 1)
    }
}

/// The member of an object.
pub open spec fn member_of(v: JsonV, key: Seq<char>) -> Option<JsonV> {
    match v {
        JsonV::Object(m) => member_in(m, key, m.len() as int),
        _ => None,
    }
}

impl Json {
    /// The member of an object, if the value is one and has it.
    pub fn get(&self, key: &str) -> (r: Option<&Json>)
        ensures
            match r {
                Some(x) => member_of(self.model(), key@) == Some(x.model()),
                None => member_of(self.model(), key@) is None,
            },
    {
        broadcast use lemma_object_model;

        if let Json::Object(m) = self {
            let ghost all = member_models(m@);
            let mut k: usize = m.len();
            while k > 0
                invariant
                    k <= m.len(),
                    all == member_models(m@),
                    *self == Json::Object(*m),
                    member_of(self.model(), key@) == member_in(all, key@, k as int),
                decreases k,
            {
                assert(all[k - 1] == (m@[k - 1].0@, m@[k - 1].1.model()));
                if crate::util::chars::same(m[k - 1].0.as_str(), key) {
                    return Some(&m[k - 1].1);
                }
                k = k - 1;
            }
        }
        None
    }

    /// The text of a JSON string.
    pub fn as_text(&self) -> (r: Option<&str>)
        ensures
            match r {
                Some(s) => self.model() == JsonV::Text(s@),
                None => !(self.model() is Text),
            },
    {
        match self {
            Json::Text(s) => Some(s.as_str()),
            _ => None,
        }
    }
}

/// Sets a member of an object.
pub fn set_member(m: &mut Vec<(String, Json)>, key: String, v: Json)
    ensures
        member_models(final(m)@) == with_pair(member_models(old(m)@), key@, v.model(), 0),
{
    let ghost all = member_models(m@);
    let mut k: usize = 0;
    while k < m.len()
        invariant
            k <= m.len(),
            member_models(m@) == all,
            all == member_models(old(m)@),
            with_pair(all, key@, v.model(), 0) == with_pair(all, key@, v.model(), k as int),
        decreases m.len() - k,
    {
        assert(all[k as int] == (m@[k as int].0@, m@[k as int].1.model()));
        if crate::util::chars::same(m[k].0.as_str(), key.as_str()) {
            let ghost x = (key@, v.model());
            m.set(k, (key, v));
            assert(member_models(m@) =~= all.update(k as int, x));
            return;
        }
        k = k + 1;
    }
    let ghost x = (key@, v.model());
    m.push((key, v));
    assert(member_models(m@) =~= all.push(x));
}

/// Whether two values are the same, whatever the order of the members of objects.
pub open spec fn json_same(a: JsonV, b: JsonV) -> bool
    decreases a,
{
    match (a, b) {
        (JsonV::Array(x), JsonV::Array(y)) => x.len() == y.len() && forall|i: int|
            0 <= i < x.len() ==> json_same(#[trigger] x[i], y[i]),
        (JsonV::Object(x), JsonV::Object(_)) => x.len() == b->Object_0.len() && forall|i: int|
            0 <= i < x.len() ==> member_of(b, (#[trigger] x[i]).0) is Some && json_same(
                x[i].1,
                member_of(b, x[i].0)->0,
            ),
        _ => !(a is Array) && !(a is Object) && a == b,
    }
}

/// Compares two values, whatever the order of the members of objects.
pub fn json_equal(a: &Json, b: &Json) -> (r: bool)
    ensures
        r == json_same(a.model(), b.model()),
    decreases *a,
{
    broadcast use {lemma_array_model, lemma_object_model};

    match (a, b) {
        (Json::Null, Json::Null) => true,
        (Json::Bool(x), Json::Bool(y)) => *x == *y,
        (Json::Number(x), Json::Number(y)) => crate::util::chars::same(
            x.to_text().as_str(),
            y.to_text().as_str(),
        ),
        (Json::Text(x), Json::Text(y)) => crate::util::chars::same(x.as_str(), y.as_str()),
        (Json::Array(x), Json::Array(y)) => {
            if x.len() != y.len() {
                return false;
            }
            let ghost all = json_models(x@);
            let ghost others = json_models(y@);
            let mut i: usize = 0;
            while i < x.len()
                invariant
                    i <= x.len(),
                    x.len() == y.len(),
                    *a == Json::Array(*x),
                    *b == Json::Array(*y),
                    all == json_models(x@),
                    others == json_models(y@),
                    forall|k: int| 0 <= k < i ==> json_same(#[trigger] all[k], others[k]),
                decreases x.len() - i,
            {
                assert(decreases_to!(*a => a->Array_0));
                assert(decreases_to!(*x => x@[i as int]));
                proof {
                    lemma_array_model(*x);
                    lemma_array_model(*y);
                }
                assert(a.model() == JsonV::Array(all) && b.model() == JsonV::Array(others));
                assert(all[i as int] == x@[i as int].model() && others[i as int] == y@[i as int].model());
                if !json_equal(&x[i], &y[i]) {
                    return false;
                }
                i = i + 1;
            }
            true
        },
        (Json::Object(x), Json::Object(y)) => {
            if x.len() != y.len() {
                return false;
            }
            let ghost all = member_models(x@);
            let mut i: usize = 0;
            while i < x.len()
                invariant
                    i <= x.len(),
                    *a == Json::Object(*x),
                    *b == Json::Object(*y),
                    x.len() == y.len(),
                    all == member_models(x@),
                    forall|k: int|
                        0 <= k < i ==> member_of(b.model(), (#[trigger] all[k]).0) is Some && json_same(
                            all[k].1,
                            member_of(b.model(), all[k].0)->0,
                        ),
                decreases x.len() - i,
            {
                assert(decreases_to!(*a => a->Object_0));
                assert(decreases_to!(*x => x@[i as int]));
                assert(decreases_to!(x@[i as int] => x@[i as int].1));
                proof {
                    lemma_object_model(*x);
                    lemma_object_model(*y);
                }
                assert(a.model() == JsonV::Object(all) && b.model() == JsonV::Object(member_models(y@)));
                assert(all[i as int] == (x@[i as int].0@, x@[i as int].1.model()));
                match b.get(x[i].0.as_str()) {
                    Some(other) => {
                        if !json_equal(&x[i].1, other) {
                            return false;
                        }
                    },
                    None => {
                        return false;
                    },
                }
                i = i + 1;
            }
            true
        },
        _ => false,
    }
}

/// Adds a member at the end of an object.
pub fn put(m: &mut Vec<(String, Json)>, name: &str, value: Json)
    ensures
        member_models(final(m)@) == member_models(old(m)@).push((name@, value.model())),
{
    let ghost before = member_models(m@);
    let ghost x = (name@, value.model());
    m.push((crate::util::chars::copy(name), value));
    assert(member_models(m@) =~= before.push(x));
}

/// A list of texts.
pub open spec fn texts_json(v: Seq<Seq<char>>) -> JsonV {
    JsonV::Array(Seq::new(v.len(), |i: int| JsonV::Text(v[i])))
}

pub fn texts_value(v: &Vec<String>) -> (r: Json)
    ensures
        r.model() == texts_json(texts(v@)),
{
    broadcast use lemma_array_model;

    let ghost all = texts(v@);
    let ghost goal = Seq::new(all.len(), |i: int| JsonV::Text(all[i]));
    let mut r: Vec<Json> = Vec::new();
    let mut k: usize = 0;
    while k < v.len()
        invariant
            k <= v.len(),
            all == texts(v@),
            goal == Seq::new(all.len(), |i: int| JsonV::Text(all[i])),
            json_models(r@) =~= goal.take(k as int),
        decreases v.len() - k,
    {
        let ghost before = json_models(r@);
        assert(all[k as int] == v@[k as int]@);
        r.push(Json::Text(v[k].clone()));
        assert(json_models(r@) =~= before.push(goal[k as int]));
        k = k + 1;
    }
    assert(goal.take(k as int) =~= goal);
    Json::Array(r)
}

} // verus!
