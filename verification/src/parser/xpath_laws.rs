//! What an XPath rule gives, and what it is evaluated in.

use crate::ext::xml::XPathV;
use crate::parser::html::combination_marks;
use crate::parser::rule_analyzer::{split_delimiter, split_result};
use crate::parser::script::{asked_xpath, Oracle, World};
use crate::parser::xpath::{
    document_query, entities_from, entity_of, first_nodes, first_result, flattened, has_result, in_table, is_name_char,
    is_root, is_xml, name_pass, standard_query, xpath_groups, xpath_nodes, xpath_result,
};
use crate::util::chars::{
    find_from, has_prefix, has_solid_ends, has_suffix, is_space, lemma_find_from, lemma_mark_at, lemma_solid_ends,
    lower_ascii,
};
use vstd::prelude::*;
use vstd::string::*;

verus! {

/// What an entity that XML does not know is written as.
pub open spec fn known_entity(name: Seq<char>) -> Option<char> {
    if name == "nbsp"@ {
        Some('\u{A0}')
    } else if name == "copy"@ {
        Some('\u{A9}')
    } else if name == "reg"@ {
        Some('\u{AE}')
    } else if name == "trade"@ {
        Some('\u{2122}')
    } else if name == "middot"@ {
        Some('\u{B7}')
    } else if name == "mdash"@ {
        Some('\u{2014}')
    } else if name == "ndash"@ {
        Some('\u{2013}')
    } else if name == "hellip"@ {
        Some('\u{2026}')
    } else if name == "emsp"@ {
        Some('\u{2003}')
    } else if name == "ensp"@ {
        Some('\u{2002}')
    } else {
        None
    }
}

proof fn lemma_mark_found(s: Seq<char>, mark: char, i: int, k: int)
    requires
        0 <= i <= k < s.len(),
        s[k] == mark,
        forall|j: int| i <= j < k ==> s[j] != mark,
    ensures
        find_from(s, seq![mark], i) == Some(k),
{
    lemma_find_from(s, seq![mark], i);
    lemma_mark_at(s, mark, k);
    if let Some(f) = find_from(s, seq![mark], i) {
        lemma_mark_at(s, mark, f);
    }
}

proof fn lemma_find_shift(a: Seq<char>, b: Seq<char>, mark: char, i: int)
    requires
        0 <= i <= b.len(),
    ensures
        find_from(a + b, seq![mark], a.len() + i) == match find_from(b, seq![mark], i) {
            Some(k) => Some(a.len() + k),
            None => None,
        },
    decreases b.len() - i,
{
    lemma_mark_at(b, mark, i);
    lemma_mark_at(a + b, mark, a.len() + i);
    if i < b.len() {
        assert((a + b)[a.len() + i] == b[i]);
        lemma_find_shift(a, b, mark, i + 1);
    }
}

proof fn lemma_entities_shift(a: Seq<char>, b: Seq<char>, i: int)
    requires
        0 <= i <= b.len(),
    ensures
        entities_from(a + b, a.len() + i) == entities_from(b, i),
    decreases b.len() - i,
{
    let s = a + b;
    lemma_find_shift(a, b, '&', i);
    lemma_find_from(b, seq!['&'], i);
    assert(s.subrange(a.len() + i, s.len() as int) =~= b.subrange(i, b.len() as int));
    if let Some(x) = find_from(b, seq!['&'], i) {
        lemma_mark_at(b, '&', x);
        lemma_find_shift(a, b, ';', x);
        lemma_find_from(b, seq![';'], x);
        if let Some(y) = find_from(b, seq![';'], x) {
            lemma_mark_at(b, ';', y);
            lemma_entities_shift(a, b, y + 1);
            assert(s.subrange(a.len() + i, a.len() + x) =~= b.subrange(i, x));
            assert(s.subrange(a.len() + x + 1, a.len() + y) =~= b.subrange(x + 1, y));
            assert(s.subrange(a.len() + x, a.len() + y + 1) =~= b.subrange(x, y + 1));
        }
    }
}

/// An entity that XML does not know is written as its character, and any other
/// stays; so does the text before it, and what comes after is read by itself.
pub proof fn law_entity_is_read(before: Seq<char>, name: Seq<char>, rest: Seq<char>)
    requires
        !before.contains('&'),
        !name.contains(';'),
    ensures
        entities_from(before + seq!['&'] + name + seq![';'] + rest, 0) == before + (match known_entity(name) {
            Some(c) => seq![c],
            None => seq!['&'] + name + seq![';'],
        }) + entities_from(rest, 0),
        entities_from(before, 0) == before,
{
    reveal_strlit("\u{A0}");
    reveal_strlit("©");
    reveal_strlit("®");
    reveal_strlit("™");
    reveal_strlit("·");
    reveal_strlit("—");
    reveal_strlit("–");
    reveal_strlit("…");
    reveal_strlit("\u{2003}");
    reveal_strlit("\u{2002}");
    let head = before + seq!['&'] + name + seq![';'];
    let s = head + rest;
    let a = before.len() as int;
    let b = a + 1 + name.len();
    assert(s[a] == '&' && s[b] == ';');
    assert forall|j: int| 0 <= j < a implies s[j] != '&' by {
        assert(before.contains(before[j]));
    }
    assert forall|j: int| a <= j < b implies s[j] != ';' by {
        if j > a {
            assert(s[j] == name[j - a - 1]);
            assert(name.contains(name[j - a - 1]));
        }
    }
    lemma_mark_found(s, '&', 0, a);
    lemma_mark_found(s, ';', a, b);
    assert(s.subrange(0, a) =~= before);
    assert(s.subrange(a + 1, b) =~= name);
    assert(s.subrange(a, b + 1) =~= seq!['&'] + name + seq![';']);
    assert(head.len() == b + 1);
    lemma_entities_shift(head, rest, 0);
    if let Some(c) = known_entity(name) {
        let e = entity_of(name);
        assert(e is Some && e->0 =~= seq![c]);
    }
    lemma_find_from(before, seq!['&'], 0);
    if let Some(k) = find_from(before, seq!['&'], 0) {
        lemma_mark_at(before, '&', k);
        assert(before.contains(before[k]));
    }
    assert(before.subrange(0, before.len() as int) =~= before);
}

proof fn lemma_ends(s: Seq<char>, p: Seq<char>)
    ensures
        has_suffix(s + p, p),
        (s + p).subrange(0, (s + p).len() - p.len()) == s,
{
    let t = s + p;
    assert(t.subrange(t.len() - p.len(), t.len() as int) =~= p);
    assert(t.subrange(0, t.len() - p.len()) =~= s);
}

proof fn lemma_last(s: Seq<char>, p: Seq<char>)
    requires
        p.len() > 0,
        has_suffix(s, p),
    ensures
        s.len() >= p.len(),
        s.last() == p.last(),
        p.len() >= 2 ==> s[s.len() - 2] == p[p.len() - 2],
{
    let t = s.subrange(s.len() - p.len(), s.len() as int);
    assert(t[p.len() - 1] == s[s.len() - 1]);
    if p.len() >= 2 {
        assert(t[p.len() - 2] == s[s.len() - 2]);
    }
}

/// The text of an element is asked for in the way of XPath.
pub proof fn law_text_query(base: Seq<char>)
    requires
        base.len() > 0,
        !is_space(base[0]),
    ensures
        standard_query(base + "/@text"@) == base + "/text()"@,
{
    reveal_strlit("/@text");
    reveal_strlit("@text");
    reveal_strlit("allText()");
    reveal_strlit("html()");
    reveal_strlit("/allText()");
    reveal_strlit("/html()");
    let s = base + "/@text"@;
    assert(s[0] == base[0] && s.last() == 't');
    lemma_solid_ends(s);
    assert("allText()"@.last() == ')' && "html()"@.last() == ')' && "/allText()"@.last() == ')' && "/html()"@.last()
        == ')');
    lemma_ends(base, "/@text"@);
    if has_suffix(s, "/allText()"@) {
        lemma_last(s, "/allText()"@);
    }
}

/// All the text of an element, and its markup, are asked for by the element
/// itself.
pub proof fn law_whole_element_query(base: Seq<char>)
    requires
        base.len() > 0,
        !is_space(base[0]),
    ensures
        standard_query(base + "/allText()"@) == base,
        standard_query(base + "/html()"@) == base,
        standard_query("/allText()"@) == "."@,
        standard_query("/html()"@) == "."@,
        standard_query("allText()"@) == "."@,
        standard_query("html()"@) == "."@,
{
    reveal_strlit("/@text");
    reveal_strlit("@text");
    reveal_strlit("allText()");
    reveal_strlit("html()");
    reveal_strlit("/allText()");
    reveal_strlit("/html()");
    let none: Seq<char> = seq![];
    lemma_whole(base, "/allText()"@);
    lemma_whole(base, "/html()"@);
    lemma_whole(none, "/allText()"@);
    lemma_whole(none, "/html()"@);
    assert(none + "/allText()"@ =~= "/allText()"@);
    assert(none + "/html()"@ =~= "/html()"@);
    lemma_solid_ends("allText()"@);
    lemma_solid_ends("html()"@);
}

proof fn lemma_whole(base: Seq<char>, end: Seq<char>)
    requires
        end == "/allText()"@ || end == "/html()"@,
        base.len() > 0 ==> !is_space(base[0]),
    ensures
        standard_query(base + end) == if base.len() == 0 {
            "."@
        } else {
            base
        },
{
    reveal_strlit("/@text");
    reveal_strlit("@text");
    reveal_strlit("allText()");
    reveal_strlit("html()");
    reveal_strlit("/allText()");
    reveal_strlit("/html()");
    let s = base + end;
    let n = s.len() as int;
    assert(s.last() == ')');
    assert(s[0] == if base.len() > 0 {
        base[0]
    } else {
        '/'
    });
    lemma_solid_ends(s);
    lemma_ends(base, end);
    assert("@text"@.last() == 't' && "/@text"@.last() == 't');
    if has_suffix(s, "/@text"@) {
        lemma_last(s, "/@text"@);
    }
    if end == "/html()"@ {
        assert(s[n - 3] == 'l' && s[n - 4] == 'm' && s[n - 7] == '/');
        if has_suffix(s, "/allText()"@) {
            assert(s.subrange(n - 10, n)[6] == s[n - 4]);
        }
        if s == "allText()"@ {
            assert(s[n - 4] == 'x');
        }
        if s == "html()"@ {
            assert(n == 6);
        }
    } else {
        assert(s[n - 4] == 'x' && s[n - 10] == '/');
        if s == "html()"@ {
            assert(s[n - 4] == 'm');
        }
        if s == "allText()"@ {
            assert(n == 9);
        }
    }
}

/// An expression is evaluated as it is where that gives anything; only from the
/// root, where it gives nothing, is a path taken to start in the body.
pub proof fn law_expression_comes_first(xml: Seq<char>, node: int, query: Seq<char>, w: World, o: Oracle)
    ensures
        ({
            let q = standard_query(query);
            let own = asked_xpath(xml, node, q, true, w, o);
            let r = xpath_result(xml, node, query, w, o);
            &&& has_result(own.0) ==> r == own
            &&& !has_result(own.0) && !is_root(xml, node) ==> r == (XPathV::Failed, own.1)
        }),
{
    reveal_with_fuel(first_result, 2);
}

/// A path from the root of a page that gives nothing is looked for in the body.
pub proof fn law_path_is_found_in_body(xml: Seq<char>, node: int, path: Seq<char>, w: World, o: Oracle)
    requires
        is_root(xml, node),
        path.len() > 1,
        path[0] == '/',
        path[1] != '/',
        has_solid_ends(path),
        path.last() != ')' && path.last() != 't',
        !has_prefix(path, "/html"@),
        !has_prefix(path, "/body"@),
        !has_prefix(path, "/reader-root/"@),
        !has_result(asked_xpath(xml, node, path, true, w, o).0),
    ensures
        ({
            let later = asked_xpath(xml, node, path, true, w, o).1;
            let body = asked_xpath(xml, node, "/html/body"@ + path, true, later, o);
            let r = xpath_result(xml, node, path, w, o);
            &&& has_result(body.0) ==> r == body
            &&& !has_result(body.0) ==> r.0 is Failed
        }),
{
    reveal_strlit("/@text");
    reveal_strlit("@text");
    reveal_strlit("allText()");
    reveal_strlit("html()");
    reveal_strlit("/allText()");
    reveal_strlit("/html()");
    reveal_strlit("/");
    reveal_strlit("//");
    reveal_with_fuel(first_result, 3);
    lemma_solid_ends(path);
    assert("allText()"@.last() == ')' && "html()"@.last() == ')' && "/allText()"@.last() == ')' && "/html()"@.last()
        == ')' && "@text"@.last() == 't' && "/@text"@.last() == 't');
    if has_suffix(path, "/allText()"@) {
        lemma_last(path, "/allText()"@);
    }
    if has_suffix(path, "/html()"@) {
        lemma_last(path, "/html()"@);
    }
    if has_suffix(path, "/@text"@) {
        lemma_last(path, "/@text"@);
    }
    assert(standard_query(path) == path);
    assert("/"@ =~= seq!['/']);
    assert(path.subrange(0, 1) =~= seq!['/']);
    assert("//"@ =~= seq!['/', '/']);
    if has_prefix(path, "//"@) {
        assert(path.subrange(0, 2)[1] == path[1]);
    }
}

/// Of two parts joined by `&&`, the nodes of both are taken, in order; of two
/// joined by `||`, those of the second only where the first gives none.
pub proof fn law_joined_parts(xml: Seq<char>, node: int, rule: Seq<char>, w: World, o: Oracle)
    requires
        split_delimiter(rule, combination_marks()) is Some,
        split_result(rule, combination_marks()).len() == 2,
        split_result(rule, combination_marks())[0].len() < rule.len(),
        split_result(rule, combination_marks())[1].len() < rule.len(),
    ensures
        ({
            let op = split_delimiter(rule, combination_marks())->0;
            let parts = split_result(rule, combination_marks());
            let first = xpath_nodes(xml, node, parts[0], w, o);
            let second = xpath_nodes(xml, node, parts[1], first.1, o);
            let r = xpath_nodes(xml, node, rule, w, o);
            &&& op == "||"@ && first.0.len() > 0 ==> r == first
            &&& op == "||"@ && first.0.len() == 0 && second.0.len() > 0 ==> r == second
            &&& op == "||"@ && first.0.len() == 0 && second.0.len() == 0 ==> r.0.len() == 0
            &&& op != "||"@ && op != "%%"@ ==> r == (first.0 + second.0, second.1)
        }),
{
    reveal_with_fuel(first_nodes, 3);
    reveal_with_fuel(xpath_groups, 3);
    reveal_with_fuel(flattened, 3);
    let op = split_delimiter(rule, combination_marks())->0;
    let parts = split_result(rule, combination_marks());
    let first = xpath_nodes(xml, node, parts[0], w, o);
    let second = xpath_nodes(xml, node, parts[1], first.1, o);
    let n = rule.len();
    if op == "||"@ {
        assert(xpath_nodes(xml, node, rule, w, o) == first_nodes(xml, node, parts, 0, n, w, o));
        assert(first_nodes(xml, node, parts, 1, n, first.1, o) == if second.0.len() > 0 {
            second
        } else {
            first_nodes(xml, node, parts, 2, n, second.1, o)
        });
    } else if op != "%%"@ {
        let x = xpath_groups(xml, node, parts, 2, n, w, o);
        assert(xpath_groups(xml, node, parts, 1, n, w, o) == (seq![first.0], first.1));
        assert(x.0 =~= seq![first.0, second.0]);
        assert(flattened(x.0, 2) =~= first.0 + second.0);
    }
}

/// Whether a character belongs to the name of an attribute: after an `@`, with
/// nothing but the characters of names between.
pub open spec fn in_attribute_name(s: Seq<char>, i: int) -> bool {
    is_name_char(s[i]) && exists|j: int|
        0 <= j < i && #[trigger] s[j] == '@' && forall|k: int| j < k < i ==> is_name_char(s[k])
}

proof fn lemma_pass(s: Seq<char>, n: int)
    requires
        0 <= n <= s.len(),
        !s.contains('\''),
        !s.contains('"'),
    ensures
        name_pass(s, n).quote is None,
        name_pass(s, n).name <==> exists|j: int|
            0 <= j < n && #[trigger] s[j] == '@' && forall|k: int| j < k < n ==> is_name_char(s[k]),
    decreases n,
{
    if n > 0 {
        lemma_pass(s, n - 1);
        let c = s[n - 1];
        assert(s.contains(c));
        if name_pass(s, n).name {
            if c == '@' {
                assert(s[n - 1] == '@');
            }
        }
        if exists|j: int| 0 <= j < n && #[trigger] s[j] == '@' && forall|k: int| j < k < n ==> is_name_char(s[k]) {
            let j = choose|j: int|
                0 <= j < n && #[trigger] s[j] == '@' && forall|k: int| j < k < n ==> is_name_char(s[k]);
            if j < n - 1 {
                assert(is_name_char(s[n - 1]));
            }
        }
    }
}

/// In a page of HTML the names of attributes are asked for in lower case, and
/// nothing else of an expression changes; in XML nothing does.
pub proof fn law_attribute_names(html: Seq<char>, query: Seq<char>)
    requires
        !query.contains('\''),
        !query.contains('"'),
    ensures
        is_xml(html) ==> document_query(html, query) == query,
        document_query(html, query).len() == query.len(),
        !is_xml(html) ==> forall|i: int|
            0 <= i < query.len() ==> #[trigger] document_query(html, query)[i] == if in_attribute_name(query, i) {
                lower_ascii(query[i])
            } else {
                query[i]
            },
{
    if !is_xml(html) {
        assert forall|i: int| 0 <= i < query.len() implies #[trigger] document_query(html, query)[i]
            == if in_attribute_name(query, i) {
            lower_ascii(query[i])
        } else {
            query[i]
        } by {
            lemma_pass(query, i);
        }
    }
}

/// A cell, a row and a body of a table are put into a table; anything else
/// stays as it is.
pub proof fn law_table_parts(x: Seq<char>)
    ensures
        in_table(x + "</td>"@) == "<table><tr>"@ + x + "</td></tr></table>"@,
        in_table(x + "</tr>"@) == "<table>"@ + x + "</tr></table>"@,
        in_table(x + "</tbody>"@) == "<table>"@ + x + "</tbody></table>"@,
        !has_suffix(x, "</td>"@) && !has_suffix(x, "</tr>"@) && !has_suffix(x, "</tbody>"@) ==> in_table(x) == x,
{
    reveal_strlit("</td>");
    reveal_strlit("</tr>");
    reveal_strlit("</tbody>");
    reveal_strlit("<tr>");
    reveal_strlit("<table>");
    reveal_strlit("</table>");
    reveal_strlit("<table><tr>");
    reveal_strlit("</td></tr></table>");
    reveal_strlit("</tr></table>");
    reveal_strlit("</tbody></table>");
    let cell = x + "</td>"@;
    let row = x + "</tr>"@;
    let body = x + "</tbody>"@;
    lemma_ends(x, "</td>"@);
    lemma_ends(x, "</tr>"@);
    lemma_ends(x, "</tbody>"@);
    lemma_ends("<tr>"@ + cell, "</tr>"@);
    assert("</td>"@[3] == 'd' && "</tr>"@[3] == 'r' && "</tbody>"@[6] == 'y' && "</td>"@[4] == '>' && "</tr>"@[4]
        == '>');
    if has_suffix(row, "</td>"@) {
        lemma_last(row, "</td>"@);
    }
    if has_suffix(body, "</td>"@) {
        lemma_last(body, "</td>"@);
    }
    assert(in_table(cell) =~= "<table><tr>"@ + x + "</td></tr></table>"@);
    assert(in_table(row) =~= "<table>"@ + x + "</tr></table>"@);
    assert(in_table(body) =~= "<table>"@ + x + "</tbody></table>"@);
}

} // verus!
