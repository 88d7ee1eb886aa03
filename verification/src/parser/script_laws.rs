//! What rules and requests give that a script or a page of a source asks for.

use crate::crawler::fetch::{executed, ClientV};
use crate::crawler::http::ClientFaultV;
use crate::crawler::response::RawV;
use crate::crawler::url_rule::Method;
use crate::executor::answer_laws::lemma_member;
use crate::ext::codec::lossy_text;
use crate::ext::dom::outer_html_of;
use crate::ext::json::{integer_text, member_of, JsonV};
use crate::model::rule::ContentRule;
use crate::parser::context::{bindings_of, CtxV};
use crate::parser::field::or_blank;
use crate::parser::html::list_of;
use crate::parser::java_net::{ajax_answer, ajax_parts, simple_payload};
use crate::parser::java_rules::{all_values, finished, first_value, got_value, value_marks, GetV};
use crate::parser::js::{called, page_call};
use crate::parser::rule_analyzer::{split_delimiter, split_result};
use crate::parser::rule_engine::{init_scope, prepared_content};
use crate::parser::script::{Oracle, World};
use crate::parser::source_rule::{js_split, regex_applied, without_mode};
use crate::util::address::resolved_url;
use crate::util::chars::{has_prefix, has_solid_ends, join_of, lemma_solid_ends, opt_text, trim_of, upper_of};
use vstd::prelude::*;
use vstd::string::*;

verus! {

/// Of two rules joined by `||` a script gets the value of the second only where
/// the first has none; of two joined by `&&` it gets both, one per line, and no
/// line for a rule without a value.
pub proof fn law_joined_values(rule: Seq<char>, g: GetV, w: World, o: Oracle)
    requires
        rule.len() > 0,
        has_solid_ends(rule),
        g.target.len() > 0,
        split_delimiter(rule, value_marks()) is Some,
        split_result(rule, value_marks()).len() == 2,
        split_result(rule, value_marks())[0].len() < rule.len(),
        split_result(rule, value_marks())[1].len() < rule.len(),
    ensures
        ({
            let parts = split_result(rule, value_marks());
            let first = got_value(parts[0], g, w, o);
            let second = got_value(parts[1], g, first.1, o);
            let r = got_value(rule, g, w, o);
            if split_delimiter(rule, value_marks()) == Some("||"@) {
                &&& first.0.len() > 0 ==> r == first
                &&& first.0.len() == 0 ==> r == second
            } else {
                &&& r.1 == second.1
                &&& r.0 == if first.0.len() == 0 {
                    second.0
                } else if second.0.len() == 0 {
                    first.0
                } else {
                    first.0 + "\n"@ + second.0
                }
            }
        }),
{
    lemma_solid_ends(rule);
    let parts = split_result(rule, value_marks());
    let n = rule.len();
    let first = got_value(parts[0], g, w, o);
    let second = got_value(parts[1], g, first.1, o);
    let none: Seq<Seq<char>> = seq![];
    if split_delimiter(rule, value_marks()) == Some("||"@) {
        assert(got_value(rule, g, w, o) == first_value(parts, 0, g, n, w, o));
        assert(first_value(parts, 2, g, n, second.1, o) == (Seq::<char>::empty(), second.1));
        assert(first_value(parts, 1, g, n, first.1, o) == if second.0.len() > 0 {
            second
        } else {
            first_value(parts, 2, g, n, second.1, o)
        });
        if second.0.len() == 0 {
            assert(second.0 =~= Seq::<char>::empty());
            assert(second == (Seq::<char>::empty(), second.1));
        }
        assert(first.0.len() == 0 ==> first_value(parts, 0, g, n, w, o) == first_value(parts, 1, g, n, first.1, o));
    } else {
        assert(all_values(parts, 0, g, n, w, o) == (none, w));
        let one = all_values(parts, 1, g, n, w, o);
        let two = all_values(parts, 2, g, n, w, o);
        assert(one == (if first.0.len() > 0 {
            none.push(first.0)
        } else {
            none
        }, first.1));
        assert(two == (if second.0.len() > 0 {
            one.0.push(second.0)
        } else {
            one.0
        }, second.1));
        assert(got_value(rule, g, w, o) == (join_of(two.0, "\n"@), two.1));
        if first.0.len() > 0 && second.0.len() > 0 {
            assert(two.0.drop_last() =~= one.0);
            assert(one.0[0] == first.0);
            assert(join_of(one.0, "\n"@) == first.0);
            assert(two.0.last() == second.0);
            assert(join_of(two.0, "\n"@) == first.0 + "\n"@ + second.0);
        } else if first.0.len() > 0 {
            assert(two.0[0] == first.0);
            assert(join_of(two.0, "\n"@) == first.0);
        } else if second.0.len() > 0 {
            assert(two.0[0] == second.0);
            assert(join_of(two.0, "\n"@) == second.0);
        } else {
            assert(two.0 =~= none);
            assert(join_of(two.0, "\n"@) =~= seq![]);
            assert(second.0 =~= seq![]);
        }
    }
}

/// A value that is asked for as an address is resolved after its replacement;
/// an empty one stays empty.
pub proof fn law_value_is_finished(value: Seq<char>, regex: Option<Seq<char>>, g: GetV)
    requires
        !g.unescape,
    ensures
        ({
            let t = match regex {
                Some(x) => regex_applied(value, x),
                None => value,
            };
            &&& !g.is_url ==> finished(value, regex, g) == t
            &&& g.is_url && t.len() > 0 ==> finished(value, regex, g) == resolved_url(g.base, t)
            &&& t.len() == 0 ==> finished(value, regex, g).len() == 0
        }),
{
}

/// What a script gets of a response: its text, where it was found, its status,
/// and whether that says that all went well.
pub proof fn law_response_for_scripts(x: RawV, url: Seq<char>)
    ensures
        ({
            let v = simple_payload(Ok(x), url);
            &&& member_of(v, "body"@) == Some(JsonV::Text(lossy_text(x.body)))
            &&& member_of(v, "url"@) == Some(JsonV::Text(x.url))
            &&& member_of(v, "code"@) == Some(JsonV::Number(integer_text(x.status as int)))
            &&& member_of(v, "isSuccessful"@) == Some(JsonV::Bool(200 <= x.status < 300))
        }),
{
    lemma_payload(simple_payload(Ok(x), url)->Object_0);
}

/// A request that fails is told as a response without a status, at the address
/// that was asked for, and never as one that went well.
pub proof fn law_failure_for_scripts(f: ClientFaultV, url: Seq<char>)
    ensures
        ({
            let v = simple_payload(Err(f), url);
            &&& member_of(v, "url"@) == Some(JsonV::Text(url))
            &&& member_of(v, "code"@) == Some(JsonV::Number(integer_text(0)))
            &&& member_of(v, "isSuccessful"@) == Some(JsonV::Bool(false))
        }),
{
    lemma_payload(simple_payload(Err(f), url)->Object_0);
}

proof fn lemma_payload(m: Seq<(Seq<char>, JsonV)>)
    requires
        m.len() == 7,
        m[0].0 == "__ffiStrResponse"@,
        m[1].0 == "body"@,
        m[2].0 == "url"@,
        m[3].0 == "code"@,
        m[4].0 == "message"@,
        m[5].0 == "headers"@,
        m[6].0 == "isSuccessful"@,
    ensures
        member_of(JsonV::Object(m), "body"@) == Some(m[1].1),
        member_of(JsonV::Object(m), "url"@) == Some(m[2].1),
        member_of(JsonV::Object(m), "code"@) == Some(m[3].1),
        member_of(JsonV::Object(m), "isSuccessful"@) == Some(m[6].1),
{
    reveal_strlit("body");
    reveal_strlit("url");
    reveal_strlit("code");
    reveal_strlit("message");
    reveal_strlit("headers");
    reveal_strlit("isSuccessful");
    assert("body"@[0] == 'b' && "url"@[0] == 'u' && "code"@[0] == 'c' && "message"@[0] == 'm' && "headers"@[0] == 'h'
        && "isSuccessful"@[0] == 'i');
    lemma_member(m, 1);
    lemma_member(m, 2);
    lemma_member(m, 3);
    lemma_member(m, 6);
}

/// An address alone is asked for by `GET`, without headers or a body of its own;
/// a script gets the text of the response, and nothing where the request fails.
pub proof fn law_ajax_gets_text(c: ClientV, address: Seq<char>, w: World, o: Oracle)
    requires
        address.len() > 0,
        has_solid_ends(address),
        ajax_parts(address).1 is None,
        upper_of("GET"@) == "GET"@,
    ensures
        ({
            let x = executed(c, Method::Get, address, seq![], None, None, w, o);
            &&& ajax_answer(c, address, w, o).1 == x.1
            &&& x.0 matches Ok(r) ==> ajax_answer(c, address, w, o).0 == lossy_text(r.body)
            &&& x.0 is Err ==> ajax_answer(c, address, w, o).0.len() == 0
        }),
{
    lemma_solid_ends(address);
    assert(ajax_parts(address).0 == address);
}

/// Without a rule to start with, the fields of a page are read in all of it; a
/// rule that selects narrows the page to the first element that it selects.
pub proof fn law_page_is_narrowed(
    init: Option<Seq<char>>,
    html: Seq<char>,
    base: Seq<char>,
    c: CtxV,
    w: World,
    o: Oracle,
)
    ensures
        ({
            let i = trim_of(or_blank(init));
            let r = init_scope(init, html, base, c, w, o);
            &&& i.len() == 0 ==> r.html is None && r.ctx == c && r.w == w
            &&& i.len() > 0 && i[0] != '@' && !has_prefix(i, "js:"@) && js_split(i).1 is None ==> {
                &&& r.ctx == c
                &&& r.w == w
                &&& list_of(html, i).len() == 0 ==> r.html is None
                &&& list_of(html, i).len() > 0 ==> r.html == Some(outer_html_of(html, list_of(html, i)[0]))
            }
        }),
{
    reveal_strlit("@put:");
    reveal_strlit("@get:");
    reveal_strlit("@css:");
    reveal_strlit("@CSS:");
    reveal_strlit("@");
    let i = trim_of(or_blank(init));
    if i.len() > 0 && i[0] != '@' {
        lemma_no_prefix(i, "@put:"@);
        lemma_no_prefix(i, "@get:"@);
        lemma_no_prefix(i, "@css:"@);
        lemma_no_prefix(i, "@CSS:"@);
        lemma_no_prefix(i, "@"@);
    }
}

proof fn lemma_no_prefix(s: Seq<char>, p: Seq<char>)
    requires
        s.len() > 0,
        p.len() > 0,
        s[0] != p[0],
    ensures
        !has_prefix(s, p),
{
    if has_prefix(s, p) {
        assert(s.subrange(0, p.len() as int)[0] == s[0]);
    }
}

/// A page is read as it came where the source neither replaces anything in it
/// nor has a script for it; a replacement is made first, and what a script
/// gives of the page takes its place, unless that is blank.
pub proof fn law_page_is_prepared(rule: ContentRule, body: Seq<char>, base: Seq<char>, c: CtxV, w: World, o: Oracle)
    ensures
        ({
            let part = or_blank(opt_text(rule.source_regex));
            let script = or_blank(opt_text(rule.web_js));
            let page = if trim_of(part).len() > 0 {
                regex_applied(body, part)
            } else {
                body
            };
            let run = called(page_call(without_mode(script), page, base, Some(bindings_of(c)), false), w, o);
            let r = prepared_content(rule, body, base, c, w, o);
            &&& trim_of(script).len() == 0 ==> r == (page, w)
            &&& trim_of(script).len() > 0 ==> r.1 == run.1 && (run.0 is Ok && trim_of(run.0->Ok_0).len() > 0 ==> r.0
                == run.0->Ok_0) && (!(run.0 is Ok && trim_of(run.0->Ok_0).len() > 0) ==> r.0 == page)
        }),
{
}

} // verus!
