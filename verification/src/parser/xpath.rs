//! XPath rules on HTML and XML documents.

use crate::ext::dom::{document_html, ints, parse_document, repaired_html_of};
use crate::ext::json::{
    json_models, json_text_of, json_to_text, lemma_array_model, lemma_object_model, member_models, set_member, Json,
    JsonV,
};
use crate::ext::regexes::{assemble, assembled, find_matches, found_models, opt_texts, regex_matches, FoundV, Matches};
use crate::ext::xml::{
    found_nodes, found_within, nodes_within, open_xml, pairs, parse_xml, positions_in, positions_of_found,
    string_value, xml_dom_of, xml_text_of, XPath, XPathNode, XPathNodeV, XPathV, XmlDocument, XmlKind, XmlKindV,
    XmlNodeV, XmlTree,
};
use crate::parser::context::with_pair;
use crate::parser::html::{combination_marks, int_groups, split_combination};
use crate::parser::markup::{group_at, group_text, re_replaced};
use crate::parser::rule_analyzer::{
    columns, interleave_result_groups, interleaved, lemma_parts_nonempty, lemma_parts_shorter, split_delimiter,
    split_result,
};
use crate::parser::script::{agrees, asked_xpath, group_log, lemma_offline_on, offline, Host, Oracle, World};
use crate::util::chars::{
    chars_find, chars_of, concat, concat3, copy, ends_with, find_from, has_prefix, has_prefix_ignore_case, has_suffix,
    is_ascii_letter, is_ascii_letter_char, is_digit, is_digit_char, is_empty_text, lower_ascii, lower_ascii_char,
    opt_text, replace, replace_of, same, starts_with, starts_with_ignore_case, string_of, string_range, strip_prefix,
    strip_prefix_of, strip_suffix, strip_suffix_of, substring, texts, trim, trim_end, trim_end_of, trim_of, trim_start,
    trim_start_of,
};
use crate::util::text::apply_regex_replace;
use vstd::prelude::*;
use vstd::string::*;

verus! {

/// The character of a named entity that XML does not know.
pub open spec fn entity_of(name: Seq<char>) -> Option<Seq<char>> {
    if name == "nbsp"@ {
        Some("\u{A0}"@)
    } else if name == "copy"@ {
        Some("©"@)
    } else if name == "reg"@ {
        Some("®"@)
    } else if name == "trade"@ {
        Some("™"@)
    } else if name == "middot"@ {
        Some("·"@)
    } else if name == "mdash"@ {
        Some("—"@)
    } else if name == "ndash"@ {
        Some("–"@)
    } else if name == "hellip"@ {
        Some("…"@)
    } else if name == "emsp"@ {
        Some("\u{2003}"@)
    } else if name == "ensp"@ {
        Some("\u{2002}"@)
    } else {
        None
    }
}

pub fn xpath_html_entity(name: &str) -> (r: Option<&'static str>)
    ensures
        crate::util::chars::opt_str(r) == entity_of(name@),
{
    if same(name, "nbsp") {
        Some("\u{A0}")
    } else if same(name, "copy") {
        Some("©")
    } else if same(name, "reg") {
        Some("®")
    } else if same(name, "trade") {
        Some("™")
    } else if same(name, "middot") {
        Some("·")
    } else if same(name, "mdash") {
        Some("—")
    } else if same(name, "ndash") {
        Some("–")
    } else if same(name, "hellip") {
        Some("…")
    } else if same(name, "emsp") {
        Some("\u{2003}")
    } else if same(name, "ensp") {
        Some("\u{2002}")
    } else {
        None
    }
}

/// `s[i..]` with the entities that XML does not know replaced by their
/// characters. An entity runs from an ampersand to the next semicolon; all
/// others, numeric ones among them, stay.
pub open spec fn entities_from(s: Seq<char>, i: int) -> Seq<char>
    decreases s.len() - i,
{
    match find_from(s, seq!['&'], i) {
        Some(a) => match find_from(s, seq![';'], a) {
            Some(b) => if i <= a && a <= b && b < s.len() {
                let e = match entity_of(s.subrange(a + 1, b)) {
                    Some(c) => c,
                    None => s.subrange(a, b + 1),
                };
                s.subrange(i, a) + e + entities_from(s, b + 1)
            } else {
                s.subrange(i, s.len() as int)
            },
            None => s.subrange(i, s.len() as int),
        },
        None => s.subrange(i, s.len() as int),
    }
}

pub fn normalize_xpath_entities(input: &str) -> (r: String)
    ensures
        r@ == entities_from(input@, 0),
{
    let v = chars_of(input);
    let amp: Vec<char> = vec!['&'];
    let semi: Vec<char> = vec![';'];
    let mut out = String::new();
    let mut i: usize = 0;
    assert(amp@ =~= seq!['&']);
    assert(semi@ =~= seq![';']);
    assert(out@ + entities_from(input@, 0) =~= entities_from(input@, 0));
    loop
        invariant
            v@ == input@,
            amp@ == seq!['&'],
            semi@ == seq![';'],
            i <= v.len(),
            entities_from(input@, 0) == out@ + entities_from(input@, i as int),
        decreases v.len() - i,
    {
        let ghost done = out@;
        let a = match chars_find(&v, &amp, i) {
            Some(a) => a,
            None => {
                out.append(string_range(&v, i, v.len()).as_str());
                return out;
            },
        };
        let b = match chars_find(&v, &semi, a) {
            Some(b) => b,
            None => {
                out.append(string_range(&v, i, v.len()).as_str());
                return out;
            },
        };
        assert(a != b) by {
            if a == b {
                assert(input@.subrange(a as int, a + 1)[0] == '&') by {
                    crate::util::chars::lemma_find_from(input@, seq!['&'], i as int);
                }
                assert(input@.subrange(b as int, b + 1)[0] == ';') by {
                    crate::util::chars::lemma_find_from(input@, seq![';'], a as int);
                }
            }
        }
        out.append(string_range(&v, i, a).as_str());
        let name = string_range(&v, a + 1, b);
        match xpath_html_entity(name.as_str()) {
            Some(c) => out.append(c),
            None => out.append(string_range(&v, a, b + 1).as_str()),
        }
        proof {
            let e = match entity_of(input@.subrange(a + 1, b as int)) {
                Some(c) => c,
                None => input@.subrange(a as int, b + 1),
            };
            assert(out@ =~= done + input@.subrange(i as int, a as int) + e);
            assert(done + (input@.subrange(i as int, a as int) + e + entities_from(input@, b + 1)) =~= out@
                + entities_from(input@, b + 1));
        }
        i = b + 1;
    }
}

/// What a void tag is written as in XML: closed, if it is not closed already.
pub open spec fn closed_tag(groups: Seq<Option<Seq<char>>>) -> Seq<char> {
    if has_suffix(trim_end_of(group_text(groups, 2)), "/"@) {
        group_text(groups, 0)
    } else {
        "<"@ + group_text(groups, 1) + group_text(groups, 2) + " />"@
    }
}

pub open spec fn closed_tags(found: Seq<FoundV>) -> Seq<Seq<char>> {
    Seq::new(found.len(), |i: int| closed_tag(found[i].groups))
}

/// HTML as an XML parser can read it: without document type, void tags closed,
/// and only entities that XML knows.
pub open spec fn xml_of_html(html: Seq<char>) -> Seq<char> {
    let s = re_replaced(html, "(?is)<!doctype[^>]*>"@, ""@);
    let t = match regex_matches(
        "(?is)<(area|base|br|col|embed|hr|img|input|link|meta|param|source|track|wbr)(\\b[^>]*)>"@,
        s,
    ) {
        Some(m) => assembled(m, closed_tags(m.found), m.found.len() as int) + m.tail,
        None => s,
    };
    entities_from(t, 0)
}

pub fn close_tag(groups: &Vec<Option<String>>) -> (r: String)
    ensures
        r@ == closed_tag(opt_texts(groups@)),
{
    let attrs = group_at(groups, 2);
    if ends_with(trim_end(attrs.as_str()).as_str(), "/") {
        return group_at(groups, 0);
    }
    let head = concat3("<", group_at(groups, 1).as_str(), attrs.as_str());
    concat(head.as_str(), " />")
}

pub fn close_tags(m: &Matches) -> (r: String)
    ensures
        r@ == assembled(m.model(), closed_tags(m.model().found), m.model().found.len() as int) + m.model().tail,
{
    let ghost all = found_models(m.found@);
    let mut parts: Vec<String> = Vec::new();
    let mut i: usize = 0;
    while i < m.found.len()
        invariant
            i <= m.found.len(),
            all == found_models(m.found@),
            texts(parts@) =~= closed_tags(all).take(i as int),
        decreases m.found.len() - i,
    {
        assert(all[i as int] == m.found@[i as int].model());
        let ghost before = texts(parts@);
        let t = close_tag(&m.found[i].groups);
        let ghost x = t@;
        parts.push(t);
        assert(texts(parts@) =~= before.push(x));
        i = i + 1;
    }
    assert(closed_tags(all).take(all.len() as int) =~= closed_tags(all));
    assert(parts.len() == texts(parts@).len());
    assemble(m, &parts)
}

pub fn html_to_xpath_xml(html: &str) -> (r: String)
    ensures
        r@ == xml_of_html(html@),
{
    let s = apply_regex_replace(html, "(?is)<!doctype[^>]*>", "");
    let t = match find_matches(
        "(?is)<(area|base|br|col|embed|hr|img|input|link|meta|param|source|track|wbr)(\\b[^>]*)>",
        s.as_str(),
    ) {
        Some(m) => close_tags(&m),
        None => s,
    };
    normalize_xpath_entities(t.as_str())
}

/// A table cell or row in the table that an HTML parser expects around it.
pub open spec fn in_table(input: Seq<char>) -> Seq<char> {
    let a = if has_suffix(input, "</td>"@) {
        "<tr>"@ + input + "</tr>"@
    } else {
        input
    };
    if has_suffix(a, "</tr>"@) || has_suffix(a, "</tbody>"@) {
        "<table>"@ + a + "</table>"@
    } else {
        a
    }
}

pub fn wrap_table(input: &str) -> (r: String)
    ensures
        r@ == in_table(input@),
{
    let a = if ends_with(input, "</td>") {
        concat3("<tr>", input, "</tr>")
    } else {
        copy(input)
    };
    if ends_with(a.as_str(), "</tr>") || ends_with(a.as_str(), "</tbody>") {
        concat3("<table>", a.as_str(), "</table>")
    } else {
        a
    }
}

pub open spec fn is_xml(s: Seq<char>) -> bool {
    has_prefix_ignore_case(trim_start_of(s), "<?xml"@)
}

pub fn looks_like_xml(s: &str) -> (r: bool)
    ensures
        r == is_xml(s@),
{
    starts_with_ignore_case(trim_start(s).as_str(), "<?xml")
}

/// The XML that XPath is evaluated in: the input itself where it declares
/// itself as XML and can be parsed, else what an HTML parser makes of it.
pub open spec fn xpath_source(input: Seq<char>) -> Option<Seq<char>> {
    let p = in_table(input);
    let direct = entities_from(trim_start_of(p), 0);
    let repaired = xml_of_html(repaired_html_of(p));
    if is_xml(p) && xml_dom_of(direct) is Some {
        Some(direct)
    } else if xml_dom_of(repaired) is Some {
        Some(repaired)
    } else {
        None
    }
}

/// Parses XML or HTML for XPath. Only an XML declaration selects XML; everything
/// else goes through the HTML parser first, even if it is well-formed XML.
pub fn parse_xpath_package(input: &str) -> (r: Option<XmlDocument>)
    ensures
        match r {
            Some(d) => xpath_source(input@) == Some(d.source()) && xml_dom_of(d.source()) is Some,
            None => xpath_source(input@) is None,
        },
{
    let p = wrap_table(input);
    if looks_like_xml(p.as_str()) {
        let direct = normalize_xpath_entities(trim_start(p.as_str()).as_str());
        if let Some(doc) = parse_xml(direct.as_str()) {
            return Some(doc);
        }
    }
    let repaired = html_to_xpath_xml(document_html(&parse_document(p.as_str())).as_str());
    parse_xml(repaired.as_str())
}

/// The XPath expression of a rule: after `@xpath:`, or the rule itself where it
/// looks like one.
pub open spec fn xpath_rule_of(rule: Seq<char>) -> Option<Seq<char>> {
    let s = trim_of(rule);
    if has_prefix_ignore_case(s, "@xpath:"@) {
        Some(trim_of(s.subrange("@xpath:"@.len() as int, s.len() as int)))
    } else if has_prefix(s, "/"@) || has_prefix(s, "./"@) || has_prefix(s, "id("@) {
        Some(s)
    } else {
        None
    }
}

pub fn xpath_rule(rule: &str) -> (r: Option<String>)
    ensures
        opt_text(r) == xpath_rule_of(rule@),
{
    let s = trim(rule);
    if starts_with_ignore_case(s.as_str(), "@xpath:") {
        let n: usize = "@xpath:".unicode_len();
        return Some(trim(substring(s.as_str(), n, s.as_str().unicode_len()).as_str()));
    }
    if starts_with(s.as_str(), "/") || starts_with(s.as_str(), "./") || starts_with(s.as_str(), "id(") {
        return Some(s);
    }
    None
}

/// An expression with the endings `allText()`, `html()` and `@text` put in
/// terms that XPath has.
pub open spec fn standard_query(xpath: Seq<char>) -> Seq<char> {
    let t = trim_of(xpath);
    if t == "allText()"@ || t == "html()"@ {
        "."@
    } else if t == "@text"@ {
        "text()"@
    } else {
        match strip_suffix_of(t, "/allText()"@) {
            Some(base) => or_self(base),
            None => match strip_suffix_of(t, "/@text"@) {
                Some(base) => base + "/text()"@,
                None => match strip_suffix_of(t, "/html()"@) {
                    Some(base) => or_self(base),
                    None => t,
                },
            },
        }
    }
}

pub open spec fn or_self(base: Seq<char>) -> Seq<char> {
    if base.len() == 0 {
        "."@
    } else {
        base
    }
}

pub fn base_or_self(base: String) -> (r: String)
    ensures
        r@ == or_self(base@),
{
    if is_empty_text(base.as_str()) {
        ".".to_owned()
    } else {
        base
    }
}

pub fn normalize_xpath_query(xpath: &str) -> (r: String)
    ensures
        r@ == standard_query(xpath@),
{
    let t = trim(xpath);
    if same(t.as_str(), "allText()") || same(t.as_str(), "html()") {
        return ".".to_owned();
    }
    if same(t.as_str(), "@text") {
        return "text()".to_owned();
    }
    if let Some(base) = strip_suffix(t.as_str(), "/allText()") {
        return base_or_self(base);
    }
    if let Some(base) = strip_suffix(t.as_str(), "/@text") {
        return concat(base.as_str(), "/text()");
    }
    if let Some(base) = strip_suffix(t.as_str(), "/html()") {
        return base_or_self(base);
    }
    t
}

/// The expressions that are tried in turn: the expression itself and, from the
/// root, the path that it has in a repaired HTML document.
pub open spec fn candidates_of(xpath: Seq<char>, root: bool) -> Seq<Seq<char>> {
    if !root {
        seq![xpath]
    } else {
        match strip_prefix_of(xpath, "/reader-root/"@) {
            Some(rest) => seq![xpath, "/html/body/"@ + rest],
            None => if has_prefix(xpath, "/"@) && !has_prefix(xpath, "//"@) && !has_prefix(xpath, "/html"@) {
                if has_prefix(xpath, "/body"@) {
                    seq![xpath, "/html"@ + xpath]
                } else {
                    seq![xpath, "/html/body"@ + xpath]
                }
            } else {
                seq![xpath]
            },
        }
    }
}

pub fn xpath_candidates(xpath: &str, root: bool) -> (r: Vec<String>)
    ensures
        texts(r@) == candidates_of(xpath@, root),
{
    let mut r: Vec<String> = Vec::new();
    r.push(copy(xpath));
    assert(texts(r@) =~= seq![xpath@]);
    if !root {
        return r;
    }
    if let Some(rest) = strip_prefix(xpath, "/reader-root/") {
        r.push(concat("/html/body/", rest.as_str()));
    } else if starts_with(xpath, "/") && !starts_with(xpath, "//") && !starts_with(xpath, "/html") {
        if starts_with(xpath, "/body") {
            r.push(concat("/html", xpath));
        } else {
            r.push(concat("/html/body", xpath));
        }
    }
    assert(texts(r@) =~= candidates_of(xpath@, root));
    r
}

pub open spec fn has_result(v: XPathV) -> bool {
    match v {
        XPathV::Failed => false,
        XPathV::Nodes(s) => s.len() > 0,
        XPathV::Text(_) => true,
    }
}

/// The first result among the candidates from `k` on.
pub open spec fn first_result(xml: Seq<char>, node: int, list: Seq<Seq<char>>, k: int, w: World, o: Oracle) -> (
    XPathV,
    World,
)
    decreases list.len() - k,
{
    if k < 0 || k >= list.len() {
        (XPathV::Failed, w)
    } else {
        let x = asked_xpath(xml, node, list[k], true, w, o);
        if has_result(x.0) {
            x
        } else {
            first_result(xml, node, list, k + 1, x.1, o)
        }
    }
}

/// What an expression gives for a node, by the first of its candidates that
/// has a result.
pub open spec fn xpath_result(xml: Seq<char>, node: int, xpath: Seq<char>, w: World, o: Oracle) -> (XPathV, World) {
    first_result(xml, node, candidates_of(standard_query(xpath), is_root(xml, node)), 0, w, o)
}

pub open spec fn is_root(xml: Seq<char>, node: int) -> bool {
    xml_dom_of(xml)->0[node].kind is Root
}

pub fn evaluate_xpath_with_fallback<E>(tree: &XmlTree<'_>, node: usize, xpath: &str, host: &mut Host<E>) -> (r: XPath)
    requires
        tree.wf(),
        node < tree.dom().len(),
    ensures
        offline(old(host).log(), final(host).log()),
        forall|o: Oracle| #[trigger]
            agrees(final(host).log(), o) ==> xpath_result(tree.source(), node as int, xpath@, old(host).world(), o) == (
                r.model(),
                final(host).world(),
            ),
        found_within(r.model(), tree.dom().len() as int),
{
    broadcast use group_log;

    let ghost w0 = host.world();
    let norm = normalize_xpath_query(xpath);
    let root = match &tree.node(node).kind {
        XmlKind::Root => true,
        _ => false,
    };
    let list = xpath_candidates(norm.as_str(), root);
    let ghost all = candidates_of(norm@, root);
    let mut k: usize = 0;
    while k < list.len()
        invariant
            k <= list.len(),
            tree.wf(),
            node < tree.dom().len(),
            all == texts(list@),
            w0 == old(host).world(),
            offline(old(host).log(), host.log()),
            forall|o: Oracle| #[trigger]
                agrees(host.log(), o) ==> xpath_result(tree.source(), node as int, xpath@, w0, o) == first_result(
                    tree.source(),
                    node as int,
                    all,
                    k as int,
                    host.world(),
                    o,
                ),
        decreases list.len() - k,
    {
        let ghost log0 = host.log();
        assert(all[k as int] == list@[k as int]@);
        let found = host.select(tree, node, list[k].as_str(), true);
        proof {
            lemma_offline_on(old(host).log(), log0, host.log());
            assert forall|o: Oracle| #[trigger] agrees(host.log(), o) implies agrees(log0, o) by {}
        }
        match &found {
            XPath::Failed => {},
            XPath::Nodes(nodes) => {
                assert(found_nodes(nodes@).len() == nodes.len());
                if nodes.len() > 0 {
                    return found;
                }
            },
            XPath::Text(_) => {
                return found;
            },
        }
        k = k + 1;
    }
    XPath::Failed
}

/// The nodes of a result that have a position; none where it is no node set.
pub open spec fn result_nodes(v: XPathV) -> Seq<int> {
    match v {
        XPathV::Nodes(s) => positions_in(s, s.len() as int),
        _ => seq![],
    }
}

/// The nodes that an XPath rule selects from a node: `||` takes the first part
/// that has any, `%%` one of each part in turn, `&&` all.
pub open spec fn xpath_nodes(xml: Seq<char>, node: int, rule: Seq<char>, w: World, o: Oracle) -> (Seq<int>, World)
    decreases rule.len(), 1int, 0int,
{
    match split_delimiter(rule, combination_marks()) {
        Some(op) => {
            let parts = split_result(rule, combination_marks());
            if op == "||"@ {
                first_nodes(xml, node, parts, 0, rule.len(), w, o)
            } else {
                let x = xpath_groups(xml, node, parts, parts.len() as int, rule.len(), w, o);
                if op == "%%"@ {
                    (interleaved(x.0), x.1)
                } else {
                    (flattened(x.0, x.0.len() as int), x.1)
                }
            }
        },
        None => {
            let x = xpath_result(xml, node, rule, w, o);
            (result_nodes(x.0), x.1)
        },
    }
}

/// The nodes of the first part, from `k` on, that has any.
pub open spec fn first_nodes(
    xml: Seq<char>,
    node: int,
    parts: Seq<Seq<char>>,
    k: int,
    bound: nat,
    w: World,
    o: Oracle,
) -> (Seq<int>, World)
    decreases bound, 0int, parts.len() - k,
{
    if k < 0 || k >= parts.len() || parts[k].len() >= bound {
        (seq![], w)
    } else {
        let x = xpath_nodes(xml, node, parts[k], w, o);
        if x.0.len() > 0 {
            x
        } else {
            first_nodes(xml, node, parts, k + 1, bound, x.1, o)
        }
    }
}

/// The nodes of the first `n` parts; a part is shorter than its rule.
pub open spec fn xpath_groups(
    xml: Seq<char>,
    node: int,
    parts: Seq<Seq<char>>,
    n: int,
    bound: nat,
    w: World,
    o: Oracle,
) -> (Seq<Seq<int>>, World)
    decreases bound, 0int, n,
{
    if n <= 0 || parts[n - 1].len() >= bound {
        (seq![], w)
    } else {
        let before = xpath_groups(xml, node, parts, n - 1, bound, w, o);
        let x = xpath_nodes(xml, node, parts[n - 1], before.1, o);
        (before.0.push(x.0), x.1)
    }
}

pub open spec fn flattened(groups: Seq<Seq<int>>, n: int) -> Seq<int>
    decreases n,
{
    if n <= 0 {
        seq![]
    } else {
        flattened(groups, n - 1) + groups[n - 1]
    }
}

proof fn lemma_columns_within(h: Seq<Seq<int>>, n: int, len: int)
    requires
        forall|i: int| 0 <= i < h.len() ==> nodes_within(#[trigger] h[i], len),
    ensures
        nodes_within(columns(h, n), len),
    decreases n,
{
    if n > 0 {
        lemma_columns_within(h, n - 1, len);
        lemma_column_within(h, n - 1, len);
    }
}

proof fn lemma_column_within(h: Seq<Seq<int>>, j: int, len: int)
    requires
        forall|i: int| 0 <= i < h.len() ==> nodes_within(#[trigger] h[i], len),
    ensures
        nodes_within(crate::parser::rule_analyzer::column(h, j), len),
    decreases h.len(),
{
    if h.len() > 0 {
        lemma_column_within(h.drop_last(), j, len);
        assert(nodes_within(h[h.len() - 1], len));
    }
}

/// Selects the nodes of an XPath rule from a node.
pub fn xpath_select_nodes<E>(tree: &XmlTree<'_>, node: usize, xpath: &str, host: &mut Host<E>) -> (r: Vec<usize>)
    requires
        tree.wf(),
        node < tree.dom().len(),
    ensures
        offline(old(host).log(), final(host).log()),
        forall|o: Oracle| #[trigger]
            agrees(final(host).log(), o) ==> xpath_nodes(tree.source(), node as int, xpath@, old(host).world(), o) == (
                ints(r@),
                final(host).world(),
            ),
        nodes_within(ints(r@), tree.dom().len() as int),
    decreases xpath@.len(),
{
    broadcast use group_log;

    let ghost w0 = host.world();
    let split = split_combination(xpath);
    let op = match split.delimiter {
        Some(op) => op,
        None => {
            return match evaluate_xpath_with_fallback(tree, node, xpath, host) {
                XPath::Nodes(nodes) => {
                    assert(found_nodes(nodes@).len() == nodes.len());
                    positions_of_found(tree, &nodes)
                },
                _ => {
                    let r: Vec<usize> = Vec::new();
                    assert(ints(r@) =~= seq![]);
                    r
                },
            };
        },
    };
    let parts = split.parts;
    let ghost all = split_result(xpath@, combination_marks());
    let ghost bound = xpath@.len();
    let ghost src = tree.source();
    proof {
        reveal_strlit("&&");
        reveal_strlit("||");
        reveal_strlit("%%");
        lemma_parts_shorter(xpath@, combination_marks());
    }
    assert(all.len() == parts.len());
    if same(op.as_str(), "||") {
        let mut k: usize = 0;
        while k < parts.len()
            invariant
                k <= parts.len(),
                tree.wf(),
                node < tree.dom().len(),
                src == tree.source(),
                bound == xpath@.len(),
                all == texts(parts@),
                all.len() == parts.len(),
                w0 == old(host).world(),
                forall|i: int| 0 <= i < all.len() ==> (#[trigger] all[i]).len() < bound,
                offline(old(host).log(), host.log()),
                forall|o: Oracle| #[trigger]
                    agrees(host.log(), o) ==> xpath_nodes(src, node as int, xpath@, w0, o) == first_nodes(
                        src,
                        node as int,
                        all,
                        k as int,
                        bound,
                        host.world(),
                        o,
                    ),
            decreases parts.len() - k,
        {
            let ghost log0 = host.log();
            assert(all[k as int] == parts@[k as int]@);
            let found = xpath_select_nodes(tree, node, parts[k].as_str(), host);
            assert(ints(found@).len() == found.len());
            proof {
                lemma_offline_on(old(host).log(), log0, host.log());
                assert forall|o: Oracle| #[trigger] agrees(host.log(), o) implies agrees(log0, o) by {}
            }
            if found.len() > 0 {
                return found;
            }
            k = k + 1;
        }
        let r: Vec<usize> = Vec::new();
        assert(ints(r@) =~= seq![]);
        return r;
    }
    let mut groups: Vec<Vec<usize>> = Vec::new();
    assert(int_groups(groups@) =~= seq![]);
    let mut k: usize = 0;
    while k < parts.len()
        invariant
            k <= parts.len(),
            tree.wf(),
            node < tree.dom().len(),
            src == tree.source(),
            bound == xpath@.len(),
            all == texts(parts@),
            all.len() == parts.len(),
            w0 == old(host).world(),
            forall|i: int| 0 <= i < all.len() ==> (#[trigger] all[i]).len() < bound,
            groups.len() == k,
            offline(old(host).log(), host.log()),
            forall|o: Oracle| #[trigger]
                agrees(host.log(), o) ==> xpath_groups(src, node as int, all, k as int, bound, w0, o) == (
                    int_groups(groups@),
                    host.world(),
                ),
            forall|i: int| 0 <= i < k ==> nodes_within(ints((#[trigger] groups@[i])@), tree.dom().len() as int),
        decreases parts.len() - k,
    {
        let ghost log0 = host.log();
        assert(all[k as int] == parts@[k as int]@);
        let found = xpath_select_nodes(tree, node, parts[k].as_str(), host);
        let ghost x = ints(found@);
        proof {
            lemma_offline_on(old(host).log(), log0, host.log());
            assert forall|o: Oracle| #[trigger] agrees(host.log(), o) implies agrees(log0, o) by {}
        }
        let ghost before = int_groups(groups@);
        groups.push(found);
        assert(int_groups(groups@) =~= before.push(x));
        k = k + 1;
    }
    let ghost total = int_groups(groups@);
    let ghost gs = groups@;
    assert(total.len() == all.len());
    proof {
        assert forall|i: int| 0 <= i < total.len() implies nodes_within(#[trigger] total[i], tree.dom().len() as int) by {
            assert(int_groups(gs)[i] == ints(gs[i]@));
        }
    }
    if same(op.as_str(), "%%") {
        let r = interleave_result_groups(groups);
        proof {
            crate::parser::html::lemma_ints_interleaved(gs, r@);
            lemma_parts_nonempty(xpath@, combination_marks());
            lemma_columns_within(total, total[0].len() as int, tree.dom().len() as int);
        }
        return r;
    }
    flatten_groups(tree, &groups)
}

/// The nodes of all groups, one after the other.
pub fn flatten_groups(tree: &XmlTree<'_>, groups: &Vec<Vec<usize>>) -> (r: Vec<usize>)
    requires
        forall|i: int|
            0 <= i < groups.len() ==> nodes_within(#[trigger] int_groups(groups@)[i], tree.dom().len() as int),
    ensures
        ints(r@) == flattened(int_groups(groups@), groups.len() as int),
        nodes_within(ints(r@), tree.dom().len() as int),
{
    let ghost total = int_groups(groups@);
    let mut r: Vec<usize> = Vec::new();
    let mut k: usize = 0;
    assert(ints(r@) =~= seq![]);
    while k < groups.len()
        invariant
            k <= groups.len(),
            total == int_groups(groups@),
            ints(r@) == flattened(total, k as int),
            nodes_within(ints(r@), tree.dom().len() as int),
            forall|i: int| 0 <= i < groups.len() ==> nodes_within(#[trigger] total[i], tree.dom().len() as int),
        decreases groups.len() - k,
    {
        assert(total[k as int] == ints(groups@[k as int]@));
        let mut j: usize = 0;
        let ghost before = ints(r@);
        while j < groups[k].len()
            invariant
                k < groups.len(),
                j <= groups@[k as int].len(),
                ints(r@) =~= before + ints(groups@[k as int]@).take(j as int),
            decreases groups@[k as int].len() - j,
        {
            let ghost here = ints(r@);
            r.push(groups[k][j]);
            assert(ints(r@) =~= here.push(groups@[k as int]@[j as int] as int));
            j = j + 1;
        }
        assert(ints(groups@[k as int]@).take(j as int) =~= ints(groups@[k as int]@));
        k = k + 1;
    }
    r
}

/// Whether a rule asks for markup.
pub open spec fn wants_markup(xpath: Seq<char>) -> bool {
    trim_of(xpath) == "html()"@ || has_suffix(trim_of(xpath), "/html()"@)
}

pub fn wants_html(xpath: &str) -> (r: bool)
    ensures
        r == wants_markup(xpath@),
{
    let t = trim(xpath);
    same(t.as_str(), "html()") || ends_with(t.as_str(), "/html()")
}

pub open spec fn escaped_text(s: Seq<char>) -> Seq<char> {
    replace_of(replace_of(replace_of(s, "&"@, "&amp;"@), "<"@, "&lt;"@), ">"@, "&gt;"@)
}

pub fn html_escape_text(s: &str) -> (r: String)
    ensures
        r@ == escaped_text(s@),
{
    proof {
        reveal_strlit("&");
        reveal_strlit("<");
        reveal_strlit(">");
    }
    let t = replace(s, "&", "&amp;");
    let t = replace(t.as_str(), "<", "&lt;");
    replace(t.as_str(), ">", "&gt;")
}

pub open spec fn escaped_attribute(s: Seq<char>) -> Seq<char> {
    replace_of(escaped_text(s), "\""@, "&quot;"@)
}

pub fn html_escape_attribute(s: &str) -> (r: String)
    ensures
        r@ == escaped_attribute(s@),
{
    proof {
        reveal_strlit("\"");
    }
    replace(html_escape_text(s).as_str(), "\"", "&quot;")
}

pub open spec fn is_void_name(n: Seq<char>) -> bool {
    ||| n == "area"@ || n == "base"@ || n == "br"@ || n == "col"@ || n == "embed"@ || n == "hr"@ || n == "img"@
    ||| n == "input"@ || n == "link"@ || n == "meta"@ || n == "param"@ || n == "source"@ || n == "track"@
    ||| n == "wbr"@
}

pub fn void_name(n: &str) -> (r: bool)
    ensures
        r == is_void_name(n@),
{
    same(n, "area") || same(n, "base") || same(n, "br") || same(n, "col") || same(n, "embed") || same(n, "hr") || same(
        n,
        "img",
    ) || same(n, "input") || same(n, "link") || same(n, "meta") || same(n, "param") || same(n, "source") || same(
        n,
        "track",
    ) || same(n, "wbr")
}

/// The attributes as they stand in a tag, the first `n` of them.
pub open spec fn attrs_markup(attrs: Seq<(Seq<char>, Seq<char>)>, n: int) -> Seq<char>
    decreases n,
{
    if n <= 0 {
        seq![]
    } else {
        attrs_markup(attrs, n - 1) + " "@ + attrs[n - 1].0 + "=\""@ + escaped_attribute(attrs[n - 1].1) + "\""@
    }
}

/// The markup of an element, with its own tags if `outer` is set. A void
/// element has one tag; comments and instructions are left out.
pub open spec fn element_markup(d: Seq<XmlNodeV>, i: int, outer: bool) -> Seq<char>
    decreases d.len() - i, d[i].children.len() + 1,
{
    if i < 0 || i >= d.len() {
        seq![]
    } else {
        let inner = children_markup(d, i, d[i].children.len() as int);
        match d[i].kind {
            XmlKindV::Element { name, attrs } => if outer {
                let open = "<"@ + name + attrs_markup(attrs, attrs.len() as int);
                if is_void_name(name) {
                    open + " />"@
                } else {
                    open + ">"@ + inner + "</"@ + name + ">"@
                }
            } else {
                inner
            },
            _ => seq![],
        }
    }
}

pub open spec fn children_markup(d: Seq<XmlNodeV>, i: int, n: int) -> Seq<char>
    decreases d.len() - i, n,
{
    if n <= 0 || i < 0 || i >= d.len() || n > d[i].children.len() {
        seq![]
    } else {
        let c = d[i].children[n - 1];
        let before = children_markup(d, i, n - 1);
        if i < c < d.len() {
            match d[c].kind {
                XmlKindV::Element { .. } => before + element_markup(d, c, true),
                XmlKindV::Text(t) => before + escaped_text(t),
                _ => before,
            }
        } else {
            before
        }
    }
}

/// Writes an element as markup, with its own tags or without.
pub fn sxd_element_to_html(tree: &XmlTree<'_>, node: usize, outer: bool) -> (r: String)
    requires
        tree.wf(),
        node < tree.dom().len(),
    ensures
        r@ == element_markup(tree.dom(), node as int, outer),
    decreases tree.dom().len() - node,
{
    let me = tree.node(node);
    let ghost d = tree.dom();
    let mut out = String::new();
    assert(out@ =~= seq![]);
    if let XmlKind::Element { name, attrs } = &me.kind {
        let void = void_name(name.as_str());
        if outer {
            out.append("<");
            out.append(name.as_str());
            let ghost head = out@;
            let mut k: usize = 0;
            assert(head + attrs_markup(pairs(attrs@), 0) =~= head);
            while k < attrs.len()
                invariant
                    k <= attrs.len(),
                    out@ == head + attrs_markup(pairs(attrs@), k as int),
                decreases attrs.len() - k,
            {
                assert(pairs(attrs@)[k as int] == (attrs@[k as int].0@, attrs@[k as int].1@));
                out.append(" ");
                out.append(attrs[k].0.as_str());
                out.append("=\"");
                out.append(html_escape_attribute(attrs[k].1.as_str()).as_str());
                out.append("\"");
                assert(out@ =~= head + attrs_markup(pairs(attrs@), k + 1));
                k = k + 1;
            }
            assert(pairs(attrs@).len() == attrs.len());
            if void {
                out.append(" />");
                assert(out@ =~= element_markup(d, node as int, outer));
                return out;
            }
            out.append(">");
        }
        let ghost head = out@;
        let mut k: usize = 0;
        assert(head + children_markup(d, node as int, 0) =~= head);
        while k < me.children.len()
            invariant
                k <= me.children.len(),
                tree.wf(),
                d == tree.dom(),
                node < d.len(),
                me.model() == d[node as int],
                out@ == head + children_markup(d, node as int, k as int),
            decreases me.children.len() - k,
        {
            assert(me.model().children[k as int] == me.children@[k as int]);
            assert(d[node as int].children[k as int] == me.children@[k as int]);
            let c: usize = me.children[k];
            match &tree.node(c).kind {
                XmlKind::Element { .. } => {
                    out.append(sxd_element_to_html(tree, c, true).as_str());
                },
                XmlKind::Text(t) => {
                    out.append(html_escape_text(t.as_str()).as_str());
                },
                _ => {},
            }
            assert(out@ =~= head + children_markup(d, node as int, k + 1));
            k = k + 1;
        }
        assert(me.model().children.len() == me.children.len());
        if outer {
            out.append("</");
            out.append(name.as_str());
            out.append(">");
        }
        assert(out@ =~= element_markup(d, node as int, outer));
    }
    out
}

pub open spec fn is_block_name(n: Seq<char>) -> bool {
    ||| n == "p"@ || n == "div"@ || n == "br"@ || n == "li"@ || n == "h1"@ || n == "h2"@ || n == "h3"@ || n == "h4"@
    ||| n == "h5"@ || n == "h6"@ || n == "blockquote"@ || n == "section"@
}

pub fn block_name(n: &str) -> (r: bool)
    ensures
        r == is_block_name(n@),
{
    same(n, "p") || same(n, "div") || same(n, "br") || same(n, "li") || same(n, "h1") || same(n, "h2") || same(n, "h3")
        || same(n, "h4") || same(n, "h5") || same(n, "h6") || same(n, "blockquote") || same(n, "section")
}

/// A text with a line break at its end, unless it is blank or has one.
pub open spec fn line_ended(s: Seq<char>) -> Seq<char> {
    if s.len() > 0 && s.last() != '\n' {
        s.push('\n')
    } else {
        s
    }
}

pub fn append_line_break(out: &mut Vec<char>)
    ensures
        final(out)@ == line_ended(old(out)@),
{
    if out.len() > 0 && out[out.len() - 1] != '\n' {
        out.push('\n');
    }
}

/// `out` followed by the text of an element, block elements on lines of their own.
pub open spec fn with_element_text(d: Seq<XmlNodeV>, i: int, out: Seq<char>) -> Seq<char>
    decreases d.len() - i, d[i].children.len() + 1,
{
    if i < 0 || i >= d.len() {
        out
    } else {
        match d[i].kind {
            XmlKindV::Element { name, .. } => if is_block_name(name) {
                line_ended(with_children_text(d, i, d[i].children.len() as int, line_ended(out)))
            } else {
                with_children_text(d, i, d[i].children.len() as int, out)
            },
            _ => out,
        }
    }
}

pub open spec fn with_children_text(d: Seq<XmlNodeV>, i: int, n: int, out: Seq<char>) -> Seq<char>
    decreases d.len() - i, n,
{
    if n <= 0 || i < 0 || i >= d.len() || n > d[i].children.len() {
        out
    } else {
        let c = d[i].children[n - 1];
        let before = with_children_text(d, i, n - 1, out);
        if i < c < d.len() {
            match d[c].kind {
                XmlKindV::Element { .. } => with_element_text(d, c, before),
                XmlKindV::Text(t) => before + t,
                _ => before,
            }
        } else {
            before
        }
    }
}

pub fn append_element_text(tree: &XmlTree<'_>, node: usize, out: &mut Vec<char>)
    requires
        tree.wf(),
        node < tree.dom().len(),
    ensures
        final(out)@ == with_element_text(tree.dom(), node as int, old(out)@),
    decreases tree.dom().len() - node,
{
    let me = tree.node(node);
    let ghost d = tree.dom();
    if let XmlKind::Element { name, .. } = &me.kind {
        let block = block_name(name.as_str());
        if block {
            append_line_break(out);
        }
        let ghost base = out@;
        let mut k: usize = 0;
        while k < me.children.len()
            invariant
                k <= me.children.len(),
                tree.wf(),
                d == tree.dom(),
                node < d.len(),
                me.model() == d[node as int],
                out@ == with_children_text(d, node as int, k as int, base),
            decreases me.children.len() - k,
        {
            assert(me.model().children[k as int] == me.children@[k as int]);
            assert(d[node as int].children[k as int] == me.children@[k as int]);
            let c: usize = me.children[k];
            match &tree.node(c).kind {
                XmlKind::Element { .. } => append_element_text(tree, c, out),
                XmlKind::Text(t) => {
                    let mut more = chars_of(t.as_str());
                    out.append(&mut more);
                },
                _ => {},
            }
            k = k + 1;
        }
        assert(me.model().children.len() == me.children.len());
        if block {
            append_line_break(out);
        }
    }
}

/// The text of the elements among the first `n` children of the root.
pub open spec fn root_text(d: Seq<XmlNodeV>, i: int, n: int) -> Seq<char>
    decreases n,
{
    if n <= 0 {
        seq![]
    } else {
        with_element_text(d, d[i].children[n - 1], root_text(d, i, n - 1))
    }
}

/// The text of a node with block elements on lines of their own.
pub open spec fn formatted_text(xml: Seq<char>, d: Seq<XmlNodeV>, i: int) -> Seq<char> {
    match d[i].kind {
        XmlKindV::Element { .. } => with_element_text(d, i, seq![]),
        XmlKindV::Root => root_text(d, i, d[i].children.len() as int),
        _ => xml_text_of(xml, i),
    }
}

pub fn xpath_formatted_text(tree: &XmlTree<'_>, node: usize) -> (r: String)
    requires
        tree.wf(),
        node < tree.dom().len(),
    ensures
        r@ == formatted_text(tree.source(), tree.dom(), node as int),
{
    let me = tree.node(node);
    let ghost d = tree.dom();
    let mut out: Vec<char> = Vec::new();
    assert(out@ =~= seq![]);
    match &me.kind {
        XmlKind::Element { .. } => {
            append_element_text(tree, node, &mut out);
            string_of(&out)
        },
        XmlKind::Root => {
            let mut k: usize = 0;
            while k < me.children.len()
                invariant
                    k <= me.children.len(),
                    tree.wf(),
                    d == tree.dom(),
                    node < d.len(),
                    me.model() == d[node as int],
                    out@ == root_text(d, node as int, k as int),
                decreases me.children.len() - k,
            {
                assert(me.model().children[k as int] == me.children@[k as int]);
                assert(d[node as int].children[k as int] == me.children@[k as int]);
                append_element_text(tree, me.children[k], &mut out);
                k = k + 1;
            }
            assert(me.model().children.len() == me.children.len());
            string_of(&out)
        },
        _ => string_value(tree, node),
    }
}

/// How a selected node is written: as the markup inside it where markup is
/// asked for and it is an element, else as its text, plain or formatted.
pub open spec fn node_text(xml: Seq<char>, i: int, markup: bool, formatted: bool) -> Seq<char> {
    let d = xml_dom_of(xml)->0;
    if markup && d[i].kind is Element {
        element_markup(d, i, false)
    } else if formatted {
        formatted_text(xml, d, i)
    } else {
        xml_text_of(xml, i)
    }
}

/// How each selected node is written; a namespace as its address.
pub open spec fn node_texts(xml: Seq<char>, s: Seq<XPathNodeV>, markup: bool, formatted: bool) -> Seq<Seq<char>> {
    Seq::new(
        s.len(),
        |k: int|
            match s[k] {
                XPathNodeV::At(i) => node_text(xml, i, markup, formatted),
                XPathNodeV::Namespace(t) => t,
            },
    )
}

/// The strings of a result.
pub open spec fn result_strings(xml: Seq<char>, v: XPathV, markup: bool, formatted: bool) -> Seq<Seq<char>> {
    match v {
        XPathV::Nodes(s) => node_texts(xml, s, markup, formatted),
        XPathV::Text(t) => seq![t],
        XPathV::Failed => seq![],
    }
}

/// The strings that an expression gives for a node.
pub open spec fn xpath_strings(
    xml: Seq<char>,
    node: int,
    xpath: Seq<char>,
    formatted: bool,
    w: World,
    o: Oracle,
) -> (Seq<Seq<char>>, World) {
    let x = xpath_result(xml, node, xpath, w, o);
    (result_strings(xml, x.0, wants_markup(xpath), formatted), x.1)
}

/// Writes a result as strings; nodes are written as [`node_text`] says.
pub fn write_result(tree: &XmlTree<'_>, found: XPath, markup: bool, formatted: bool) -> (r: Vec<String>)
    requires
        tree.wf(),
        found_within(found.model(), tree.dom().len() as int),
    ensures
        texts(r@) == result_strings(tree.source(), found.model(), markup, formatted),
{
    let mut r: Vec<String> = Vec::new();
    match found {
        XPath::Nodes(nodes) => {
            let ghost all = found_nodes(nodes@);
            let ghost want = node_texts(tree.source(), all, markup, formatted);
            let mut k: usize = 0;
            while k < nodes.len()
                invariant
                    k <= nodes.len(),
                    tree.wf(),
                    all == found_nodes(nodes@),
                    found_within(XPathV::Nodes(all), tree.dom().len() as int),
                    want == node_texts(tree.source(), all, markup, formatted),
                    texts(r@) =~= want.take(k as int),
                decreases nodes.len() - k,
            {
                assert(all[k as int] == nodes@[k as int].model());
                let ghost before = texts(r@);
                let t = match &nodes[k] {
                    XPathNode::At(i) => {
                        let element = match &tree.node(*i).kind {
                            XmlKind::Element { .. } => true,
                            _ => false,
                        };
                        if markup && element {
                            sxd_element_to_html(tree, *i, false)
                        } else if formatted {
                            xpath_formatted_text(tree, *i)
                        } else {
                            string_value(tree, *i)
                        }
                    },
                    XPathNode::Namespace(t) => t.clone(),
                };
                let ghost x = t@;
                r.push(t);
                assert(x == want[k as int]);
                assert(texts(r@) =~= before.push(x));
                k = k + 1;
            }
            assert(want.len() == nodes.len());
            assert(want.take(nodes.len() as int) =~= want);
        },
        XPath::Text(t) => {
            let ghost x = t@;
            r.push(t);
            assert(texts(r@) =~= seq![x]);
        },
        XPath::Failed => {
            assert(texts(r@) =~= seq![]);
        },
    }
    r
}

/// The strings that an expression gives for a node.
pub fn xpath_eval_texts<E>(
    tree: &XmlTree<'_>,
    node: usize,
    xpath: &str,
    formatted: bool,
    host: &mut Host<E>,
) -> (r: Vec<String>)
    requires
        tree.wf(),
        node < tree.dom().len(),
    ensures
        offline(old(host).log(), final(host).log()),
        forall|o: Oracle| #[trigger]
            agrees(final(host).log(), o) ==> xpath_strings(
                tree.source(),
                node as int,
                xpath@,
                formatted,
                old(host).world(),
                o,
            ) == (texts(r@), final(host).world()),
{
    let found = evaluate_xpath_with_fallback(tree, node, xpath, host);
    write_result(tree, found, wants_html(xpath), formatted)
}

/// The strings of an expression for a node, each node's plain text.
pub fn xpath_eval_strings<E>(tree: &XmlTree<'_>, node: usize, xpath: &str, host: &mut Host<E>) -> (r: Vec<String>)
    requires
        tree.wf(),
        node < tree.dom().len(),
    ensures
        offline(old(host).log(), final(host).log()),
        forall|o: Oracle| #[trigger]
            agrees(final(host).log(), o) ==> xpath_strings(
                tree.source(),
                node as int,
                xpath@,
                false,
                old(host).world(),
                o,
            ) == (texts(r@), final(host).world()),
{
    xpath_eval_texts(tree, node, xpath, false, host)
}

pub open spec fn is_name_char(c: char) -> bool {
    is_ascii_letter(c) || is_digit(c) || c == '_' || c == ':' || c == '-' || c == '.'
}

/// Whether a pass over an expression is in a quoted text or in an attribute's name.
pub struct NamePass {
    pub quote: Option<char>,
    pub name: bool,
}

pub open spec fn name_step(p: NamePass, c: char) -> NamePass {
    match p.quote {
        Some(q) => if c == q {
            NamePass { quote: None, name: false }
        } else {
            p
        },
        None => if p.name && is_name_char(c) {
            p
        } else if c == '\'' || c == '"' {
            NamePass { quote: Some(c), name: false }
        } else {
            NamePass { quote: None, name: c == '@' }
        },
    }
}

/// The state of the pass after the first `n` characters.
pub open spec fn name_pass(s: Seq<char>, n: int) -> NamePass
    decreases n,
{
    if n <= 0 {
        NamePass { quote: None, name: false }
    } else {
        name_step(name_pass(s, n - 1), s[n - 1])
    }
}

/// An expression with the names of attributes, outside quoted texts, in lower case.
pub open spec fn lower_attribute_names(s: Seq<char>) -> Seq<char> {
    Seq::new(
        s.len(),
        |i: int|
            if name_pass(s, i).quote is None && name_pass(s, i).name && is_name_char(s[i]) {
                lower_ascii(s[i])
            } else {
                s[i]
            },
    )
}

/// The expression that is evaluated for a document: HTML has attribute names
/// in lower case, XML keeps its own.
pub open spec fn document_query(html: Seq<char>, xpath: Seq<char>) -> Seq<char> {
    if is_xml(html) {
        xpath
    } else {
        lower_attribute_names(xpath)
    }
}

pub fn normalize_html_xpath_attribute_names(html: &str, xpath: &str) -> (r: String)
    ensures
        r@ == document_query(html@, xpath@),
{
    if looks_like_xml(html) {
        return copy(xpath);
    }
    let v = chars_of(xpath);
    let mut out = String::new();
    let mut quote: Option<char> = None;
    let mut name = false;
    let mut i: usize = 0;
    while i < v.len()
        invariant
            v@ == xpath@,
            i <= v.len(),
            out@ =~= lower_attribute_names(xpath@).take(i as int),
            name_pass(xpath@, i as int) == (NamePass { quote, name }),
        decreases v.len() - i,
    {
        let c = v[i];
        let named = is_ascii_letter_char(c) || is_digit_char(c) || c == '_' || c == ':' || c == '-' || c == '.';
        if let Some(q) = quote {
            out.push(c);
            if c == q {
                quote = None;
                name = false;
            }
        } else if name && named {
            out.push(lower_ascii_char(c));
        } else {
            out.push(c);
            if c == '\'' || c == '"' {
                quote = Some(c);
                name = false;
            } else {
                name = c == '@';
            }
        }
        i = i + 1;
    }
    assert(lower_attribute_names(xpath@).take(xpath@.len() as int) =~= lower_attribute_names(xpath@));
    out
}

/// The strings that an XPath rule gives in a document; none where the document
/// cannot be parsed.
pub open spec fn document_strings(html: Seq<char>, xpath: Seq<char>, formatted: bool, w: World, o: Oracle) -> (
    Seq<Seq<char>>,
    World,
) {
    match xpath_source(html) {
        Some(xml) => xpath_strings(xml, 0, document_query(html, xpath), formatted, w, o),
        None => (seq![], w),
    }
}

/// Selects by XPath, nodes written plainly or formatted.
pub fn select_xpath_values<E>(html: &str, xpath: &str, formatted: bool, host: &mut Host<E>) -> (r: Vec<String>)
    ensures
        offline(old(host).log(), final(host).log()),
        forall|o: Oracle| #[trigger]
            agrees(final(host).log(), o) ==> document_strings(html@, xpath@, formatted, old(host).world(), o) == (
                texts(r@),
                final(host).world(),
            ),
{
    broadcast use group_log;

    match parse_xpath_package(html) {
        Some(doc) => {
            let tree = open_xml(&doc);
            let query = normalize_html_xpath_attribute_names(html, xpath);
            xpath_eval_texts(&tree, 0, query.as_str(), formatted, host)
        },
        None => {
            let r: Vec<String> = Vec::new();
            assert(texts(r@) =~= seq![]);
            r
        },
    }
}

/// Selects by XPath in an HTML or XML document.
pub fn select_xpath<E>(html: &str, xpath: &str, host: &mut Host<E>) -> (r: Vec<String>)
    ensures
        offline(old(host).log(), final(host).log()),
        forall|o: Oracle| #[trigger]
            agrees(final(host).log(), o) ==> document_strings(html@, xpath@, false, old(host).world(), o) == (
                texts(r@),
                final(host).world(),
            ),
{
    select_xpath_values(html, xpath, false, host)
}

/// Selects by XPath, with block elements on lines of their own.
pub fn select_xpath_content<E>(html: &str, xpath: &str, host: &mut Host<E>) -> (r: Vec<String>)
    ensures
        offline(old(host).log(), final(host).log()),
        forall|o: Oracle| #[trigger]
            agrees(final(host).log(), o) ==> document_strings(html@, xpath@, true, old(host).world(), o) == (
                texts(r@),
                final(host).world(),
            ),
{
    select_xpath_values(html, xpath, true, host)
}

/// The attributes of an element as the members of an object.
pub open spec fn attr_members(attrs: Seq<(Seq<char>, Seq<char>)>, n: int) -> Seq<(Seq<char>, JsonV)>
    decreases n,
{
    if n <= 0 {
        seq![]
    } else {
        with_pair(attr_members(attrs, n - 1), attrs[n - 1].0, JsonV::Text(attrs[n - 1].1), 0)
    }
}

/// A selected node as a value for scripts: an element as an object with its
/// attributes, markup and text, an attribute as its value, all else as its text.
pub open spec fn node_value(xml: Seq<char>, i: int) -> JsonV {
    let d = xml_dom_of(xml)->0;
    match d[i].kind {
        XmlKindV::Element { name, attrs } => JsonV::Object(
            seq![
                ("__readerHtmlElement"@, JsonV::Bool(true)),
                ("attrs"@, JsonV::Object(attr_members(attrs, attrs.len() as int))),
                ("html"@, JsonV::Text(element_markup(d, i, false))),
                ("outerHtml"@, JsonV::Text(element_markup(d, i, true))),
                ("text"@, JsonV::Text(xml_text_of(xml, i))),
            ],
        ),
        XmlKindV::Attribute(v) => JsonV::Text(v),
        _ => JsonV::Text(xml_text_of(xml, i)),
    }
}

pub fn node_json(tree: &XmlTree<'_>, node: usize) -> (r: Json)
    requires
        tree.wf(),
        node < tree.dom().len(),
    ensures
        r.model() == node_value(tree.source(), node as int),
{
    broadcast use lemma_object_model;

    match &tree.node(node).kind {
        XmlKind::Element { name, attrs } => {
            let mut list: Vec<(String, Json)> = Vec::new();
            let mut k: usize = 0;
            assert(member_models(list@) =~= seq![]);
            while k < attrs.len()
                invariant
                    k <= attrs.len(),
                    member_models(list@) == attr_members(pairs(attrs@), k as int),
                decreases attrs.len() - k,
            {
                assert(pairs(attrs@)[k as int] == (attrs@[k as int].0@, attrs@[k as int].1@));
                set_member(&mut list, attrs[k].0.clone(), Json::Text(attrs[k].1.clone()));
                k = k + 1;
            }
            assert(pairs(attrs@).len() == attrs.len());
            let mut m: Vec<(String, Json)> = Vec::new();
            m.push(("__readerHtmlElement".to_owned(), Json::Bool(true)));
            m.push(("attrs".to_owned(), Json::Object(list)));
            m.push(("html".to_owned(), Json::Text(sxd_element_to_html(tree, node, false))));
            m.push(("outerHtml".to_owned(), Json::Text(sxd_element_to_html(tree, node, true))));
            m.push(("text".to_owned(), Json::Text(string_value(tree, node))));
            assert(member_models(m@) =~= node_value(tree.source(), node as int)->Object_0);
            Json::Object(m)
        },
        XmlKind::Attribute(v) => Json::Text(v.clone()),
        _ => Json::Text(string_value(tree, node)),
    }
}

pub open spec fn node_values(xml: Seq<char>, s: Seq<int>) -> Seq<JsonV> {
    Seq::new(s.len(), |k: int| node_value(xml, s[k]))
}

/// The nodes that an XPath rule selects in a document, as values for scripts.
pub open spec fn xpath_values(html: Seq<char>, xpath: Seq<char>, w: World, o: Oracle) -> (Seq<char>, World) {
    match xpath_source(html) {
        Some(xml) => {
            let x = xpath_nodes(xml, 0, document_query(html, xpath), w, o);
            (json_text_of(JsonV::Array(node_values(xml, x.0))), x.1)
        },
        None => ("[]"@, w),
    }
}

/// Selects by XPath and writes the nodes as a JSON array for scripts.
pub fn select_xpath_elements_json<E>(html: &str, xpath: &str, host: &mut Host<E>) -> (r: String)
    ensures
        offline(old(host).log(), final(host).log()),
        forall|o: Oracle| #[trigger]
            agrees(final(host).log(), o) ==> xpath_values(html@, xpath@, old(host).world(), o) == (r@, final(host).world()),
{
    broadcast use group_log;
    broadcast use lemma_array_model;

    let doc = match parse_xpath_package(html) {
        Some(doc) => doc,
        None => {
            return "[]".to_owned();
        },
    };
    let tree = open_xml(&doc);
    let query = normalize_html_xpath_attribute_names(html, xpath);
    let nodes = xpath_select_nodes(&tree, 0, query.as_str(), host);
    let ghost want = node_values(tree.source(), ints(nodes@));
    let mut items: Vec<Json> = Vec::new();
    let mut k: usize = 0;
    while k < nodes.len()
        invariant
            k <= nodes.len(),
            tree.wf(),
            nodes_within(ints(nodes@), tree.dom().len() as int),
            want == node_values(tree.source(), ints(nodes@)),
            json_models(items@) =~= want.take(k as int),
        decreases nodes.len() - k,
    {
        assert(ints(nodes@)[k as int] == nodes@[k as int]);
        let ghost before = json_models(items@);
        let x = node_json(&tree, nodes[k]);
        let ghost m = x.model();
        items.push(x);
        assert(m == want[k as int]);
        assert(json_models(items@) =~= before.push(m));
        k = k + 1;
    }
    assert(want.len() == nodes.len());
    assert(want.take(nodes.len() as int) =~= want);
    json_to_text(&Json::Array(items))
}

} // verus!
