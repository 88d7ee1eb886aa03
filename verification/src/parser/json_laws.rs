//! What holds of the values that JSON rules pick.

use crate::ext::json::{jsonpath_of, member_of, JsonV};
use crate::ext::regexes::{assembled, MatchesV};
use crate::parser::jsonpath::{
    embedded_path, embedded_values, found_rendered, opened_arrays, query_of, unsupported_path, value_text, value_texts,
};
use crate::parser::path_guard::may_abort;
use crate::parser::source_rule::json_field;
use crate::parser::value_laws::{lemma_present_push, present};
use crate::util::chars::{
    contains_text, find_from, has_prefix, is_space, join_of, lemma_find_from, lemma_trim_ends, trim_of, trim_start_of,
};
use vstd::prelude::*;
use vstd::string::*;

verus! {

/// Each value, or its items where it is an array.
pub open spec fn each_opened(found: Seq<JsonV>) -> Seq<Seq<JsonV>> {
    Seq::new(
        found.len(),
        |i: int|
            match found[i] {
                JsonV::Array(items) => items,
                x => seq![x],
            },
    )
}

proof fn lemma_opened(found: Seq<JsonV>, n: int)
    requires
        0 <= n <= found.len(),
    ensures
        opened_arrays(found, n) == each_opened(found.take(n)).flatten(),
    decreases n,
{
    broadcast use Seq::lemma_flatten_push;

    if n > 0 {
        lemma_opened(found, n - 1);
        let last = match found[n - 1] {
            JsonV::Array(items) => items,
            x => seq![x],
        };
        assert(each_opened(found.take(n)) =~= each_opened(found.take(n - 1)).push(last));
        assert(opened_arrays(found, n) =~= opened_arrays(found, n - 1) + last);
    } else {
        assert(each_opened(found.take(0)) =~= seq![]);
    }
}

/// Whether a text is a path that can be asked.
pub open spec fn is_safe_path(path: Seq<char>) -> bool {
    &&& path.len() > 0
    &&& path[0] == '$'
    &&& trim_of(path) == path
    &&& forall|i: int| 0 <= i < path.len() ==> #[trigger] path[i] != '{'
    &&& !unsupported_path(path)
    &&& !may_abort(path)
}

/// A path picks the values that it selects, in their order, and the items of
/// arrays in place of the arrays; one that cannot be read picks none.
pub proof fn law_path_picks(v: JsonV, path: Seq<char>)
    requires
        is_safe_path(path),
    ensures
        match jsonpath_of(v, path) {
            Some(found) => query_of(v, path) == each_opened(found).flatten(),
            None => query_of(v, path).len() == 0,
        },
{
    reveal_strlit("$");
    reveal_strlit("{");
    lemma_no_brace(path);
    assert(path.subrange(0, 1) =~= "$"@);
    if let Some(found) = jsonpath_of(v, path) {
        lemma_opened(found, found.len() as int);
        assert(found.take(found.len() as int) =~= found);
    }
}

proof fn lemma_no_brace(path: Seq<char>)
    requires
        forall|i: int| 0 <= i < path.len() ==> #[trigger] path[i] != '{',
    ensures
        !contains_text(path, "{"@),
{
    reveal_strlit("{");
    lemma_find_from(path, "{"@, 0);
    if let Some(j) = find_from(path, "{"@, 0) {
        assert(path.subrange(j, j + 1)[0] == path[j]);
    }
}

/// A path may be written without its root: a name stands below it, and so does
/// a bracket.
pub proof fn law_root_may_be_left_out(v: JsonV, name: Seq<char>)
    requires
        name.len() > 0,
        trim_of(name) == name,
        name[0] != '$',
        forall|i: int| 0 <= i < name.len() ==> #[trigger] name[i] != '{',
    ensures
        name[0] != '[' ==> query_of(v, name) == query_of(v, "$."@ + name),
        name[0] == '[' ==> query_of(v, name) == query_of(v, "$"@ + name),
{
    reveal_strlit("$");
    reveal_strlit("$.");
    reveal_strlit("[");
    reveal_strlit("{");
    lemma_no_brace(name);
    lemma_trim_ends(name);
    let a = "$."@ + name;
    let b = "$"@ + name;
    lemma_no_brace(a);
    lemma_no_brace(b);
    assert(a.last() == name.last() && b.last() == name.last());
    assert(a[0] == '$' && b[0] == '$');
    crate::util::chars::lemma_solid_ends(a);
    crate::util::chars::lemma_solid_ends(b);
    assert(a.subrange(0, 1) =~= "$"@);
    assert(b.subrange(0, 1) =~= "$"@);
    assert(name.subrange(0, 1) =~= seq![name[0]]);
    assert("$"@ =~= seq!['$']);
    assert("["@ =~= seq!['[']);
    if has_prefix(name, "$"@) {
        assert(name.subrange(0, 1)[0] == '$');
    }
    if has_prefix(name, "["@) {
        assert(name.subrange(0, 1)[0] == '[');
    }
}

proof fn lemma_value_texts(items: Seq<JsonV>, n: int)
    requires
        0 <= n <= items.len(),
    ensures
        value_texts(items, n) == present(Seq::new(n as nat, |i: int| value_text(items[i]))),
    decreases n,
{
    reveal(Seq::filter);
    let f = |i: int| value_text(items[i]);
    if n > 0 {
        lemma_value_texts(items, n - 1);
        assert(Seq::new(n as nat, f) =~= Seq::new((n - 1) as nat, f).push(value_text(items[n - 1])));
        lemma_present_push(Seq::new((n - 1) as nat, f), value_text(items[n - 1]));
    } else {
        assert(value_texts(items, n) =~= present(Seq::new(0, f)));
    }
}

/// The text of a value: a text is itself, a number is as it is written, an array
/// has the texts of its items, one per line, and nothing has none.
pub proof fn law_text_of_value(t: Seq<char>, items: Seq<JsonV>)
    ensures
        value_text(JsonV::Text(t)) == Some(t),
        value_text(JsonV::Number(t)) == Some(t),
        value_text(JsonV::Bool(true)) == Some("true"@),
        value_text(JsonV::Bool(false)) == Some("false"@),
        value_text(JsonV::Null) is None,
        value_text(JsonV::Array(items)) == Some(
            join_of(present(Seq::new(items.len(), |i: int| value_text(items[i]))), "\n"@),
        ),
{
    lemma_value_texts(items, items.len() as int);
}

/// A name picks the text of the member of that name, and a path the text of the
/// first value that it picks.
pub proof fn law_json_field(v: JsonV, name: Seq<char>, path: Seq<char>)
    requires
        name.len() > 0,
        name[0] != '$',
        !is_space(name[0]),
        is_safe_path(path),
    ensures
        json_field(v, name) == match member_of(v, name) {
            Some(x) => value_text(x),
            None => None,
        },
        json_field(v, path) == if query_of(v, path).len() > 0 {
            value_text(query_of(v, path)[0])
        } else {
            None
        },
{
    reveal_strlit("$");
    assert(trim_start_of(name) == name);
    if has_prefix(name, "$"@) {
        assert(name.subrange(0, 1)[0] == name[0]);
    }
    assert(!is_space('$'));
    assert(trim_start_of(path) == path);
    assert(path.subrange(0, 1) =~= "$"@);
}

/// A path that is embedded in a rule is replaced by the text of the first value
/// that it picks, blank where there is none; the rule around it stays.
pub proof fn law_embedded_path(v: JsonV, m: MatchesV, path: Seq<char>)
    requires
        m.found.len() == 1,
        embedded_path(m.found[0].groups) == path,
        is_safe_path(path),
    ensures
        found_rendered(v, m) == Some(
            m.found[0].before + (match json_field(v, path) {
                Some(t) => t,
                None => seq![],
            }) + m.tail,
        ),
{
    reveal_strlit("$");
    reveal_strlit("{");
    lemma_no_brace(path);
    assert(!is_space('$'));
    assert(trim_start_of(path) == path);
    assert(path.subrange(0, 1) =~= "$"@);
    reveal_with_fuel(assembled, 2);
    let x = embedded_values(v, m.found);
    assert(Seq::<char>::empty() + m.found[0].before + x[0] + m.tail =~= m.found[0].before + x[0] + m.tail);
}

} // verus!
