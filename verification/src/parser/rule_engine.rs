//! Reading of pages by the rules of a source: search results, books, tables of
//! contents and chapters.

use crate::ext::dom::{
    all_elements, document_html, ints, outer_html, outer_html_of, parse_document, repaired_html_of, Document,
};
use crate::ext::json::{
    copy_json, integer_text, json_integer, json_models, json_of, lemma_array_model, lemma_object_model, member_models,
    member_of, parse_json, set_member, Json, JsonV,
};
use crate::ext::regexes::{group_rows, opt_texts};
use crate::ext::xml::{found_nodes, nodes_within, open_xml, positions_of_found, XPath, XmlTree};
use crate::model::book::Book;
use crate::model::book_chapter::{chapter_models, BookChapter, ChapterV};
use crate::model::book_source::BookSource;
use crate::model::rule::{BookInfoRule, ContentRule, SearchRule, TocRule};
use crate::model::search::{found_books, FoundBookV, SearchBook};
use crate::parser::context::{
    bindings_of, context_get, empty_context, parse_variable_map, text_members, variables_of, variables_text, with_pair,
    CtxV, RuleVariableContext,
};
use crate::parser::field::{
    eval_field, eval_puts, eval_rule, eval_rules, field, interpolate_templates, interpolated, or_blank, plain_strings,
    plain_xpath_strings, put_all, rule_field, rule_fields, rule_texts, text_or_blank, Scope, ScopeV,
};
use crate::parser::html::{
    all_text_of, first_of, first_string, list_of, select_all_text, select_css_list, select_list, select_text_list,
    selected, text_list,
};
use crate::parser::js::{called, eval_js_with_bindings, page_call, with_js_lib};
use crate::parser::jsonpath::{
    first_string_of, jsonpath_first_string, jsonpath_query, query_of, value_texts, value_to_string,
};
use crate::parser::markup::{format_keep_img, text_with_images};
use crate::parser::script::{
    agrees, asked_xpath, group_log, lemma_offline_on, offline, Host, Oracle, ScriptEngine, World,
};
use crate::parser::source_rule::{
    all_captures, apply_legado_regex, book_url_pattern_matches, capture_rows, chapter_url, classify_rule_mode,
    direct_get_key, extract_js, finalize_chapter_url, get_key, has_book_url_pattern, is_fragment, is_truthy, js_split,
    list_rule_of, looks_like_html_fragment, mode_of, next_pages, normalize_list_rule, normalize_toc_next_urls,
    output_items, parse_js_output_items, pattern_matches, pattern_set, put_models, puts_of, regex_applied,
    regex_capture_rows, row_values, script_of, split_replacement, strip_js_rule, strip_mode_prefix, truthy,
    without_mode, without_puts, ParseMode, SourceRule,
};
use crate::parser::xpath::{document_strings, parse_xpath_package, result_nodes, select_xpath, xpath_source};
use crate::util::address::{resolve_url, resolved_url};
use crate::util::chars::{
    contains, contains_text, copy, has_prefix, is_empty_text, opt_str, opt_text, same, starts_with, strip_prefix,
    strip_prefix_of, texts, trim, trim_of, trim_start, trim_start_char, trim_start_of, trim_start_of_char,
};
use vstd::prelude::*;
use vstd::string::*;

verus! {

/// Reads the pages of a source by its rules.
#[derive(Clone, Copy, Default)]
pub struct RuleEngine;

pub open spec fn is_json_content(content: Seq<char>) -> bool {
    let c = trim_of(content);
    (has_prefix(c, "{"@) || has_prefix(c, "["@)) && json_of(c) is Some
}

/// The mode of a rule for a content.
pub open spec fn detected_mode(rule: Seq<char>, content: Seq<char>) -> ParseMode {
    mode_of(rule, ParseMode::Css, is_json_content(content)).0
}

/// The context that the rules of a search result start from.
pub open spec fn item_context() -> CtxV {
    CtxV { rule_data: Some(seq![]), book: Some(seq![]), ..empty_context() }
}

/// The rules of a search result but its name, in the order of their evaluation.
pub open spec fn result_rules(rule: SearchRule) -> Seq<Option<Seq<char>>> {
    seq![
        opt_text(rule.author),
        opt_text(rule.book_url),
        opt_text(rule.cover_url),
        opt_text(rule.intro),
        opt_text(rule.kind),
        opt_text(rule.last_chapter),
        opt_text(rule.update_time),
        opt_text(rule.word_count),
    ]
}

pub open spec fn opt_resolved(base: Seq<char>, url: Option<Seq<char>>) -> Option<Seq<char>> {
    match url {
        Some(u) => Some(resolved_url(base, u)),
        None => None,
    }
}

pub fn resolve_option(base: &str, url: &Option<String>) -> (r: Option<String>)
    ensures
        opt_text(r) == opt_resolved(base@, opt_text(*url)),
{
    match url {
        Some(u) => Some(resolve_url(base, u.as_str())),
        None => None,
    }
}

/// How the items of a list are read: whether one without a name is passed over,
/// and whether a missing address stays blank.
#[derive(Clone, Copy)]
pub struct ItemPolicy {
    pub skip_unnamed: bool,
    pub blank_url: bool,
}

/// A result of a search, read from an item of its list.
pub open spec fn found_book(
    s: ScopeV,
    origin: Seq<char>,
    rule: SearchRule,
    base: Seq<char>,
    policy: ItemPolicy,
    w: World,
    o: Oracle,
) -> (Option<FoundBookV>, World) {
    let name = rule_field(s, opt_text(rule.name), base, item_context(), w, o);
    if policy.skip_unnamed && or_blank(name.value).len() == 0 {
        (None, name.w)
    } else {
        let rest = rule_fields(s, result_rules(rule), 8, base, name.ctx, name.w, o);
        (
            Some(
                FoundBookV {
                    name: or_blank(name.value),
                    author: or_blank(rest.values[0]),
                    book_url: if policy.blank_url {
                        or_blank(opt_resolved(base, rest.values[1]))
                    } else {
                        resolved_url(base, or_blank(rest.values[1]))
                    },
                    origin,
                    cover_url: opt_resolved(base, rest.values[2]),
                    intro: rest.values[3],
                    kind: rest.values[4],
                    last_chapter: rest.values[5],
                    update_time: rest.values[6],
                    word_count: rest.values[7],
                    variable: variables_text(rest.ctx.book),
                    book_source_urls: None,
                },
            ),
            rest.w,
        )
    }
}

fn take_value(v: &mut Vec<Option<String>>, i: usize) -> (r: Option<String>)
    requires
        i < old(v).len(),
    ensures
        opt_text(r) == opt_texts(old(v)@)[i as int],
        final(v).len() == old(v).len(),
        opt_texts(final(v)@) == opt_texts(old(v)@).update(i as int, None),
{
    let ghost all = v@;
    let r = match &v[i] {
        Some(t) => Some(t.clone()),
        None => None,
    };
    v.set(i, None);
    assert(opt_texts(v@) =~= opt_texts(all).update(i as int, None));
    r
}

pub fn build_search_book<E: ScriptEngine>(
    s: &Scope,
    origin: &str,
    rule: &SearchRule,
    base: &str,
    policy: ItemPolicy,
    host: &mut Host<E>,
) -> (r: Option<SearchBook>)
    requires
        s.wf(),
    ensures
        offline(old(host).log(), final(host).log()),
        forall|o: Oracle| #[trigger]
            agrees(final(host).log(), o) ==> found_book(
                s.model(),
                origin@,
                *rule,
                base@,
                policy,
                old(host).world(),
                o,
            ) == (opt_book(r), final(host).world()),
{
    broadcast use group_log;

    let ghost w0 = host.world();
    let mut ctx = RuleVariableContext::for_search_item();
    assert(ctx.model() == item_context());
    let name = text_or_blank(eval_rule(s, &rule.name, base, &mut ctx, host));
    let ghost log1 = host.log();
    if policy.skip_unnamed && is_empty_text(name.as_str()) {
        return None;
    }
    let mut rules: Vec<&Option<String>> = Vec::new();
    rules.push(&rule.author);
    rules.push(&rule.book_url);
    rules.push(&rule.cover_url);
    rules.push(&rule.intro);
    rules.push(&rule.kind);
    rules.push(&rule.last_chapter);
    rules.push(&rule.update_time);
    rules.push(&rule.word_count);
    assert(rule_texts(rules@) =~= result_rules(*rule));
    let mut v = eval_rules(s, &rules, base, &mut ctx, host);
    let ghost all = opt_texts(v@);
    assert(all.len() == 8);
    let author = text_or_blank(take_value(&mut v, 0));
    let url = take_value(&mut v, 1);
    let book_url = if policy.blank_url {
        text_or_blank(resolve_option(base, &url))
    } else {
        resolve_url(base, text_or_blank(url).as_str())
    };
    let cover = take_value(&mut v, 2);
    let book = SearchBook {
        name,
        author,
        book_url,
        origin: copy(origin),
        cover_url: resolve_option(base, &cover),
        intro: take_value(&mut v, 3),
        kind: take_value(&mut v, 4),
        last_chapter: take_value(&mut v, 5),
        update_time: take_value(&mut v, 6),
        word_count: take_value(&mut v, 7),
        variable: ctx.book_variable(),
        book_source_urls: None,
    };
    proof {
        lemma_offline_on(old(host).log(), log1, host.log());
        assert forall|o: Oracle| #[trigger] agrees(host.log(), o) implies found_book(
            s.model(),
            origin@,
            *rule,
            base@,
            policy,
            w0,
            o,
        ) == (Some(book.model()), host.world()) by {
            assert(agrees(log1, o));
        }
    }
    Some(book)
}

pub open spec fn opt_book(o: Option<SearchBook>) -> Option<FoundBookV> {
    match o {
        Some(b) => Some(b.model()),
        None => None,
    }
}

pub open spec fn scopes(v: Seq<Scope<'_, '_>>) -> Seq<ScopeV> {
    Seq::new(v.len(), |i: int| v[i].model())
}

/// The results read from the first `n` items of a list.
pub open spec fn found_list(
    items: Seq<ScopeV>,
    n: int,
    origin: Seq<char>,
    rule: SearchRule,
    base: Seq<char>,
    policy: ItemPolicy,
    w: World,
    o: Oracle,
) -> (Seq<FoundBookV>, World)
    decreases n,
{
    if n <= 0 {
        (seq![], w)
    } else {
        let before = found_list(items, n - 1, origin, rule, base, policy, w, o);
        let got = found_book(items[n - 1], origin, rule, base, policy, before.1, o);
        match got.0 {
            Some(b) => (before.0.push(b), got.1),
            None => (before.0, got.1),
        }
    }
}

pub open spec fn found_all(
    items: Seq<ScopeV>,
    origin: Seq<char>,
    rule: SearchRule,
    base: Seq<char>,
    policy: ItemPolicy,
    w: World,
    o: Oracle,
) -> (Seq<FoundBookV>, World) {
    found_list(items, items.len() as int, origin, rule, base, policy, w, o)
}

pub fn build_search_books<E: ScriptEngine>(
    items: &Vec<Scope>,
    origin: &str,
    rule: &SearchRule,
    base: &str,
    policy: ItemPolicy,
    host: &mut Host<E>,
) -> (r: Vec<SearchBook>)
    requires
        forall|i: int| 0 <= i < items.len() ==> (#[trigger] items@[i]).wf(),
    ensures
        offline(old(host).log(), final(host).log()),
        forall|o: Oracle| #[trigger]
            agrees(final(host).log(), o) ==> found_all(
                scopes(items@),
                origin@,
                *rule,
                base@,
                policy,
                old(host).world(),
                o,
            ) == (found_books(r@), final(host).world()),
{
    broadcast use group_log;

    let ghost w0 = host.world();
    let ghost all = scopes(items@);
    let mut r: Vec<SearchBook> = Vec::new();
    let mut k: usize = 0;
    assert(found_books(r@) =~= seq![]);
    while k < items.len()
        invariant
            k <= items.len(),
            forall|i: int| 0 <= i < items.len() ==> (#[trigger] items@[i]).wf(),
            all == scopes(items@),
            w0 == old(host).world(),
            offline(old(host).log(), host.log()),
            forall|o: Oracle| #[trigger]
                agrees(host.log(), o) ==> found_list(all, k as int, origin@, *rule, base@, policy, w0, o) == (
                    found_books(r@),
                    host.world(),
                ),
        decreases items.len() - k,
    {
        let ghost log1 = host.log();
        let ghost before = found_books(r@);
        assert(all[k as int] == items@[k as int].model());
        let got = build_search_book(&items[k], origin, rule, base, policy, host);
        let ghost x = opt_book(got);
        if let Some(book) = got {
            r.push(book);
            assert(found_books(r@) =~= before.push(x->0));
        }
        proof {
            lemma_offline_on(old(host).log(), log1, host.log());
            assert forall|o: Oracle| #[trigger] agrees(host.log(), o) implies found_list(
                all,
                k + 1,
                origin@,
                *rule,
                base@,
                policy,
                w0,
                o,
            ) == (found_books(r@), host.world()) by {
                assert(agrees(log1, o));
            }
        }
        k = k + 1;
    }
    assert(all.len() == items.len());
    r
}

pub open spec fn element_scopes(html: Seq<char>, s: Seq<int>) -> Seq<ScopeV> {
    Seq::new(s.len(), |i: int| ScopeV::Element(html, s[i]))
}

pub open spec fn node_scopes(xml: Seq<char>, s: Seq<int>) -> Seq<ScopeV> {
    Seq::new(s.len(), |i: int| ScopeV::Node(xml, s[i]))
}

pub open spec fn value_scopes(s: Seq<JsonV>) -> Seq<ScopeV> {
    Seq::new(s.len(), |i: int| ScopeV::Value(s[i]))
}

pub open spec fn row_scopes(s: Seq<Seq<Option<Seq<char>>>>) -> Seq<ScopeV> {
    Seq::new(s.len(), |i: int| ScopeV::Row(s[i]))
}

pub fn scopes_of_elements<'a, 'd>(doc: &'a Document, nodes: &Vec<usize>) -> (r: Vec<Scope<'a, 'd>>)
    requires
        doc.wf(),
        all_elements(doc.dom(), ints(nodes@)),
    ensures
        scopes(r@) == element_scopes(doc.source(), ints(nodes@)),
        forall|i: int| 0 <= i < r.len() ==> (#[trigger] r@[i]).wf(),
{
    let mut r: Vec<Scope<'a, 'd>> = Vec::new();
    let mut k: usize = 0;
    while k < nodes.len()
        invariant
            k <= nodes.len(),
            r.len() == k,
            doc.wf(),
            all_elements(doc.dom(), ints(nodes@)),
            forall|i: int| 0 <= i < k ==> (#[trigger] r@[i]) == Scope::<'a, 'd>::Element(doc, nodes@[i]),
            forall|i: int| 0 <= i < k ==> (#[trigger] r@[i]).wf(),
        decreases nodes.len() - k,
    {
        assert(ints(nodes@)[k as int] == nodes@[k as int]);
        r.push(Scope::Element(doc, nodes[k]));
        k = k + 1;
    }
    assert(scopes(r@) =~= element_scopes(doc.source(), ints(nodes@)));
    r
}

pub fn scopes_of_nodes<'a, 'd>(tree: &'a XmlTree<'d>, nodes: &Vec<usize>) -> (r: Vec<Scope<'a, 'd>>)
    requires
        tree.wf(),
        nodes_within(ints(nodes@), tree.dom().len() as int),
    ensures
        scopes(r@) == node_scopes(tree.source(), ints(nodes@)),
        forall|i: int| 0 <= i < r.len() ==> (#[trigger] r@[i]).wf(),
{
    let mut r: Vec<Scope<'a, 'd>> = Vec::new();
    let mut k: usize = 0;
    while k < nodes.len()
        invariant
            k <= nodes.len(),
            r.len() == k,
            tree.wf(),
            nodes_within(ints(nodes@), tree.dom().len() as int),
            forall|i: int| 0 <= i < k ==> (#[trigger] r@[i]) == Scope::<'a, 'd>::Node(tree, nodes@[i]),
            forall|i: int| 0 <= i < k ==> (#[trigger] r@[i]).wf(),
        decreases nodes.len() - k,
    {
        assert(ints(nodes@)[k as int] == nodes@[k as int]);
        r.push(Scope::Node(tree, nodes[k]));
        k = k + 1;
    }
    assert(scopes(r@) =~= node_scopes(tree.source(), ints(nodes@)));
    r
}

pub fn scopes_of_values<'a, 'd>(values: &'a Vec<Json>) -> (r: Vec<Scope<'a, 'd>>)
    ensures
        scopes(r@) == value_scopes(json_models(values@)),
        forall|i: int| 0 <= i < r.len() ==> (#[trigger] r@[i]).wf(),
{
    let mut r: Vec<Scope<'a, 'd>> = Vec::new();
    let mut k: usize = 0;
    while k < values.len()
        invariant
            k <= values.len(),
            r.len() == k,
            forall|i: int| 0 <= i < k ==> (#[trigger] r@[i]) == Scope::<'a, 'd>::Value(&values@[i]),
        decreases values.len() - k,
    {
        r.push(Scope::Value(&values[k]));
        k = k + 1;
    }
    assert(scopes(r@) =~= value_scopes(json_models(values@)));
    r
}

pub fn scopes_of_rows<'a, 'd>(rows: &'a Vec<Vec<Option<String>>>) -> (r: Vec<Scope<'a, 'd>>)
    ensures
        scopes(r@) == row_scopes(group_rows(rows@)),
        forall|i: int| 0 <= i < r.len() ==> (#[trigger] r@[i]).wf(),
{
    let mut r: Vec<Scope<'a, 'd>> = Vec::new();
    let mut k: usize = 0;
    while k < rows.len()
        invariant
            k <= rows.len(),
            r.len() == k,
            forall|i: int| 0 <= i < k ==> (#[trigger] r@[i]) == Scope::<'a, 'd>::Row(&rows@[i]),
        decreases rows.len() - k,
    {
        r.push(Scope::Row(&rows[k]));
        k = k + 1;
    }
    assert(scopes(r@) =~= row_scopes(group_rows(rows@)));
    r
}

/// The nodes that a plain XPath expression selects; a blank one selects none.
pub open spec fn plain_nodes(xml: Seq<char>, node: int, xpath: Seq<char>, w: World, o: Oracle) -> (Seq<int>, World) {
    let x = trim_of(xpath);
    if x.len() == 0 {
        (seq![], w)
    } else {
        let y = asked_xpath(xml, node, x, false, w, o);
        (result_nodes(y.0), y.1)
    }
}

pub fn plain_xpath_nodes<E>(tree: &XmlTree<'_>, node: usize, xpath: &str, host: &mut Host<E>) -> (r: Vec<usize>)
    requires
        tree.wf(),
        node < tree.dom().len(),
    ensures
        offline(old(host).log(), final(host).log()),
        forall|o: Oracle| #[trigger]
            agrees(final(host).log(), o) ==> plain_nodes(tree.source(), node as int, xpath@, old(host).world(), o) == (
                ints(r@),
                final(host).world(),
            ),
        nodes_within(ints(r@), tree.dom().len() as int),
{
    broadcast use group_log;

    let x = trim(xpath);
    if !is_empty_text(x.as_str()) {
        if let XPath::Nodes(nodes) = host.select(tree, node, x.as_str(), false) {
            assert(found_nodes(nodes@).len() == nodes.len());
            return positions_of_found(tree, &nodes);
        }
    }
    let r: Vec<usize> = Vec::new();
    assert(ints(r@) =~= seq![]);
    r
}

pub open spec fn named_items() -> ItemPolicy {
    ItemPolicy { skip_unnamed: true, blank_url: false }
}

pub open spec fn all_items() -> ItemPolicy {
    ItemPolicy { skip_unnamed: false, blank_url: false }
}

pub open spec fn json_items() -> ItemPolicy {
    ItemPolicy { skip_unnamed: false, blank_url: true }
}

/// The results of a list rule that is a script: the items of the JSON that it
/// hands back, else the elements of the markup.
pub open spec fn books_by_script(
    origin: Seq<char>,
    body: Seq<char>,
    base: Seq<char>,
    rule: SearchRule,
    list: Seq<char>,
    w: World,
    o: Oracle,
) -> (Seq<FoundBookV>, World) {
    let got = called(page_call(without_mode(list), body, base, Some(bindings_of(empty_context())), false), w, o);
    match got.0 {
        Ok(output) => match output_items(output) {
            Some(items) => found_all(value_scopes(items), origin, rule, base, named_items(), got.1, o),
            None => found_all(
                element_scopes(output, selected(output, "body > *"@)),
                origin,
                rule,
                base,
                named_items(),
                got.1,
                o,
            ),
        },
        Err(_) => (seq![], got.1),
    }
}

/// The results that a list rule of some mode gives for a page.
pub open spec fn books_by_mode(
    mode: ParseMode,
    origin: Seq<char>,
    body: Seq<char>,
    base: Seq<char>,
    rule: SearchRule,
    list: Seq<char>,
    w: World,
    o: Oracle,
) -> (Seq<FoundBookV>, World) {
    match mode {
        ParseMode::JsonPath => match json_of(body) {
            Some(v) => found_all(
                value_scopes(query_of(v, without_mode(list))),
                origin,
                rule,
                base,
                json_items(),
                w,
                o,
            ),
            None => (seq![], w),
        },
        ParseMode::XPath => match xpath_source(body) {
            Some(xml) => {
                let x = plain_nodes(xml, 0, without_mode(list), w, o);
                found_all(node_scopes(xml, x.0), origin, rule, base, all_items(), x.1, o)
            },
            None => (seq![], w),
        },
        ParseMode::Js => books_by_script(origin, body, base, rule, list, w, o),
        ParseMode::Regex => found_all(
            row_scopes(capture_rows(without_mode(list), body)),
            origin,
            rule,
            base,
            named_items(),
            w,
            o,
        ),
        ParseMode::Css => if trim_of(list).len() == 0 {
            (seq![], w)
        } else {
            found_all(
                element_scopes(body, list_of(body, without_mode(list))),
                origin,
                rule,
                base,
                all_items(),
                w,
                o,
            )
        },
    }
}

fn no_books() -> (r: Vec<SearchBook>)
    ensures
        found_books(r@) == Seq::<FoundBookV>::empty(),
{
    let r: Vec<SearchBook> = Vec::new();
    assert(found_books(r@) =~= Seq::empty());
    r
}

pub fn search_books_js<E: ScriptEngine>(
    origin: &str,
    body: &str,
    base: &str,
    rule: &SearchRule,
    list: &str,
    host: &mut Host<E>,
) -> (r: Vec<SearchBook>)
    ensures
        offline(old(host).log(), final(host).log()),
        forall|o: Oracle| #[trigger]
            agrees(final(host).log(), o) ==> books_by_script(
                origin@,
                body@,
                base@,
                *rule,
                list@,
                old(host).world(),
                o,
            ) == (found_books(r@), final(host).world()),
{
    broadcast use group_log;

    let ghost w0 = host.world();
    let ctx = RuleVariableContext::empty();
    let answer = eval_js_with_bindings(strip_mode_prefix(list).as_str(), body, base, ctx.js_bindings(), host);
    let ghost log1 = host.log();
    let output = match answer {
        Ok(output) => output,
        Err(_) => {
            return no_books();
        },
    };
    let policy = ItemPolicy { skip_unnamed: true, blank_url: false };
    let r = match parse_js_output_items(output.as_str()) {
        Some(items) => build_search_books(&scopes_of_values(&items), origin, rule, base, policy, host),
        None => {
            let doc = parse_document(output.as_str());
            let nodes = select_css_list(&doc, "body > *");
            build_search_books(&scopes_of_elements(&doc, &nodes), origin, rule, base, policy, host)
        },
    };
    proof {
        lemma_offline_on(old(host).log(), log1, host.log());
        assert forall|o: Oracle| #[trigger] agrees(host.log(), o) implies books_by_script(
            origin@,
            body@,
            base@,
            *rule,
            list@,
            w0,
            o,
        ) == (found_books(r@), host.world()) by {
            assert(agrees(log1, o));
        }
    }
    r
}

pub fn search_books_by_mode<E: ScriptEngine>(
    mode: ParseMode,
    origin: &str,
    body: &str,
    base: &str,
    rule: &SearchRule,
    list: &str,
    host: &mut Host<E>,
) -> (r: Vec<SearchBook>)
    ensures
        offline(old(host).log(), final(host).log()),
        forall|o: Oracle| #[trigger]
            agrees(final(host).log(), o) ==> books_by_mode(
                mode,
                origin@,
                body@,
                base@,
                *rule,
                list@,
                old(host).world(),
                o,
            ) == (found_books(r@), final(host).world()),
{
    broadcast use group_log;

    let pure = strip_mode_prefix(list);
    match mode {
        ParseMode::JsonPath => match parse_json(body) {
            Some(v) => {
                let items = jsonpath_query(&v, pure.as_str());
                let policy = ItemPolicy { skip_unnamed: false, blank_url: true };
                build_search_books(&scopes_of_values(&items), origin, rule, base, policy, host)
            },
            None => no_books(),
        },
        ParseMode::XPath => match parse_xpath_package(body) {
            Some(doc) => {
                let tree = open_xml(&doc);
                let nodes = plain_xpath_nodes(&tree, 0, pure.as_str(), host);
                let ghost log1 = host.log();
                let policy = ItemPolicy { skip_unnamed: false, blank_url: false };
                let r = build_search_books(&scopes_of_nodes(&tree, &nodes), origin, rule, base, policy, host);
                proof {
                    lemma_offline_on(old(host).log(), log1, host.log());
                    assert forall|o: Oracle| #[trigger] agrees(host.log(), o) implies agrees(log1, o) by {}
                }
                r
            },
            None => no_books(),
        },
        ParseMode::Js => search_books_js(origin, body, base, rule, list, host),
        ParseMode::Regex => {
            let rows = regex_capture_rows(pure.as_str(), body);
            let policy = ItemPolicy { skip_unnamed: true, blank_url: false };
            build_search_books(&scopes_of_rows(&rows), origin, rule, base, policy, host)
        },
        ParseMode::Css => {
            if is_empty_text(trim(list).as_str()) {
                return no_books();
            }
            let doc = parse_document(body);
            let nodes = select_list(&doc, pure.as_str());
            let policy = ItemPolicy { skip_unnamed: false, blank_url: false };
            build_search_books(&scopes_of_elements(&doc, &nodes), origin, rule, base, policy, host)
        },
    }
}

/// The rules of a book's page, in the order of their evaluation.
pub open spec fn info_rules(rule: BookInfoRule) -> Seq<Option<Seq<char>>> {
    seq![
        opt_text(rule.name),
        opt_text(rule.author),
        opt_text(rule.intro),
        opt_text(rule.kind),
        opt_text(rule.last_chapter),
        opt_text(rule.update_time),
        opt_text(rule.cover_url),
        opt_text(rule.word_count),
        opt_text(rule.toc_url),
        opt_text(rule.can_re_name),
        opt_text(rule.download_urls),
    ]
}

/// What a book's page tells of it.
pub struct BookV {
    pub name: Seq<char>,
    pub author: Seq<char>,
    pub book_url: Seq<char>,
    pub origin: Seq<char>,
    pub origin_name: Option<Seq<char>>,
    pub cover_url: Option<Seq<char>>,
    pub toc_url: Option<Seq<char>>,
    pub intro: Option<Seq<char>>,
    pub latest_chapter_title: Option<Seq<char>>,
    pub word_count: Option<Seq<char>>,
    pub kind: Option<Seq<char>>,
    pub update_time: Option<Seq<char>>,
    pub can_re_name: Option<Seq<char>>,
    pub download_urls: Option<Seq<char>>,
    pub variable: Option<Seq<char>>,
}

impl Book {
    pub open spec fn model(self) -> BookV {
        BookV {
            name: self.name@,
            author: self.author@,
            book_url: self.book_url@,
            origin: self.origin@,
            origin_name: opt_text(self.origin_name),
            cover_url: opt_text(self.cover_url),
            toc_url: opt_text(self.toc_url),
            intro: opt_text(self.intro),
            latest_chapter_title: opt_text(self.latest_chapter_title),
            word_count: opt_text(self.word_count),
            kind: opt_text(self.kind),
            update_time: opt_text(self.update_time),
            can_re_name: opt_text(self.can_re_name),
            download_urls: opt_text(self.download_urls),
            variable: opt_text(self.variable),
        }
    }

    /// Whether the fields that no page tells are all unset.
    pub open spec fn is_fresh(self) -> bool {
        &&& self.charset is None
        &&& self.custom_cover_url is None
        &&& self.can_update is None
        &&& self.dur_chapter_index is None
        &&& self.dur_chapter_pos is None
        &&& self.dur_chapter_time is None
        &&& self.dur_chapter_title is None
        &&& self.last_check_time is None
        &&& self.total_chapter_num is None
        &&& self.kind_code is None
        &&& self.group is None
        &&& self.info_html is None
        &&& self.toc_html is None
    }
}

/// The book that a scope of its page describes. Without an address of its own
/// the table of contents stands on the book's page.
pub open spec fn book_in(
    s: ScopeV,
    source: BookSource,
    rule: BookInfoRule,
    base: Seq<char>,
    book_url: Seq<char>,
    c: CtxV,
    w: World,
    o: Oracle,
) -> (BookV, World) {
    let got = rule_fields(s, info_rules(rule), 11, base, c, w, o);
    let v = got.values;
    (
        BookV {
            name: or_blank(v[0]),
            author: or_blank(v[1]),
            book_url,
            origin: source.book_source_url@,
            origin_name: Some(source.book_source_name@),
            cover_url: opt_resolved(base, v[6]),
            toc_url: match v[8] {
                Some(u) => Some(resolved_url(base, u)),
                None => Some(book_url),
            },
            intro: v[2],
            latest_chapter_title: v[4],
            word_count: v[7],
            kind: v[3],
            update_time: v[5],
            can_re_name: v[9],
            download_urls: v[10],
            variable: variables_text(got.ctx.book),
        },
        got.w,
    )
}

pub fn build_book<E: ScriptEngine>(
    s: &Scope,
    source: &BookSource,
    rule: &BookInfoRule,
    base: &str,
    book_url: &str,
    ctx: &mut RuleVariableContext,
    host: &mut Host<E>,
) -> (r: Book)
    requires
        s.wf(),
    ensures
        r.is_fresh(),
        offline(old(host).log(), final(host).log()),
        forall|o: Oracle| #[trigger]
            agrees(final(host).log(), o) ==> book_in(
                s.model(),
                *source,
                *rule,
                base@,
                book_url@,
                old(ctx).model(),
                old(host).world(),
                o,
            ) == (r.model(), final(host).world()),
{
    let mut rules: Vec<&Option<String>> = Vec::new();
    rules.push(&rule.name);
    rules.push(&rule.author);
    rules.push(&rule.intro);
    rules.push(&rule.kind);
    rules.push(&rule.last_chapter);
    rules.push(&rule.update_time);
    rules.push(&rule.cover_url);
    rules.push(&rule.word_count);
    rules.push(&rule.toc_url);
    rules.push(&rule.can_re_name);
    rules.push(&rule.download_urls);
    assert(rule_texts(rules@) =~= info_rules(*rule));
    let mut v = eval_rules(s, &rules, base, ctx, host);
    let ghost all = opt_texts(v@);
    assert(all.len() == 11);
    let cover = take_value(&mut v, 6);
    let toc = take_value(&mut v, 8);
    Book {
        name: text_or_blank(take_value(&mut v, 0)),
        author: text_or_blank(take_value(&mut v, 1)),
        book_url: copy(book_url),
        origin: source.book_source_url.clone(),
        origin_name: Some(source.book_source_name.clone()),
        cover_url: resolve_option(base, &cover),
        toc_url: match toc {
            Some(u) => Some(resolve_url(base, u.as_str())),
            None => Some(copy(book_url)),
        },
        charset: None,
        custom_cover_url: None,
        can_update: None,
        dur_chapter_index: None,
        dur_chapter_pos: None,
        dur_chapter_time: None,
        dur_chapter_title: None,
        intro: take_value(&mut v, 2),
        latest_chapter_title: take_value(&mut v, 4),
        last_check_time: None,
        total_chapter_num: None,
        kind_code: None,
        group: None,
        word_count: take_value(&mut v, 7),
        info_html: None,
        toc_html: None,
        kind: take_value(&mut v, 3),
        update_time: take_value(&mut v, 5),
        can_re_name: take_value(&mut v, 9),
        download_urls: take_value(&mut v, 10),
        variable: ctx.book_variable(),
    }
}

/// What an initial rule leaves: the markup that the fields are read from, where
/// it gives one, and the context and world after it.
pub struct InitOut {
    pub html: Option<Seq<char>>,
    pub ctx: CtxV,
    pub w: World,
}

/// The selector of an initial rule: after `@css:`, or the rule itself; none
/// where it starts with another mark.
pub open spec fn init_selector(init: Seq<char>) -> Option<Seq<char>> {
    match strip_prefix_of(init, "@css:"@) {
        Some(x) => Some(x),
        None => match strip_prefix_of(init, "@CSS:"@) {
            Some(x) => Some(x),
            None => if has_prefix(init, "@"@) {
                None
            } else {
                Some(init)
            },
        },
    }
}

/// What an initial rule does before the fields of a page are read: it sets
/// variables, or a script gives new markup, or a selector narrows the page to
/// the first element that it selects.
pub open spec fn init_scope(
    init: Option<Seq<char>>,
    html: Seq<char>,
    base: Seq<char>,
    c: CtxV,
    w: World,
    o: Oracle,
) -> InitOut {
    let i = trim_of(or_blank(init));
    if i.len() == 0 {
        InitOut { html: None, ctx: c, w }
    } else if has_prefix(i, "@put:"@) || has_prefix(i, "@get:"@) {
        let got = field(ScopeV::Page(html), i, base, c, w, o);
        InitOut { html: None, ctx: got.ctx, w: got.w }
    } else if has_prefix(i, "js:"@) {
        let got = called(
            page_call(script_of(i), repaired_html_of(html), base, Some(bindings_of(c)), false),
            w,
            o,
        );
        InitOut {
            html: match got.0 {
                Ok(t) => if is_fragment(t) {
                    Some(t)
                } else {
                    None
                },
                Err(_) => None,
            },
            ctx: c,
            w: got.1,
        }
    } else if js_split(i).1 is Some {
        let got = field(ScopeV::Page(html), i, base, c, w, o);
        InitOut {
            html: match got.value {
                Some(t) => if is_fragment(t) {
                    Some(t)
                } else {
                    None
                },
                None => None,
            },
            ctx: got.ctx,
            w: got.w,
        }
    } else {
        match init_selector(i) {
            Some(sel) => {
                let found = list_of(html, sel);
                InitOut {
                    html: if found.len() > 0 {
                        Some(outer_html_of(html, found[0]))
                    } else {
                        None
                    },
                    ctx: c,
                    w,
                }
            },
            None => {
                let got = field(ScopeV::Page(html), i, base, c, w, o);
                InitOut { html: None, ctx: got.ctx, w: got.w }
            },
        }
    }
}

pub fn if_fragment(t: String) -> (r: Option<String>)
    ensures
        opt_text(r) == (if is_fragment(t@) {
            Some(t@)
        } else {
            None
        }),
{
    if looks_like_html_fragment(t.as_str()) {
        Some(t)
    } else {
        None
    }
}

pub fn prepare_html_init_scope<E: ScriptEngine>(
    init: &Option<String>,
    doc: &Document,
    base: &str,
    ctx: &mut RuleVariableContext,
    host: &mut Host<E>,
) -> (r: Option<String>)
    requires
        doc.wf(),
    ensures
        offline(old(host).log(), final(host).log()),
        forall|o: Oracle| #[trigger]
            agrees(final(host).log(), o) ==> init_scope(
                opt_text(*init),
                doc.source(),
                base@,
                old(ctx).model(),
                old(host).world(),
                o,
            ) == (InitOut { html: opt_text(r), ctx: final(ctx).model(), w: final(host).world() }),
{
    broadcast use group_log;

    let i = match init {
        Some(t) => trim(t.as_str()),
        None => trim(""),
    };
    proof {
        reveal_strlit("");
        assert(""@ =~= seq![]);
    }
    let s = Scope::Page(doc);
    if is_empty_text(i.as_str()) {
        return None;
    }
    if starts_with(i.as_str(), "@put:") || starts_with(i.as_str(), "@get:") {
        let _ = eval_field(&s, i.as_str(), base, ctx, host);
        return None;
    }
    if starts_with(i.as_str(), "js:") {
        let page = document_html(doc);
        let answer = eval_js_with_bindings(
            strip_js_rule(i.as_str()).as_str(),
            page.as_str(),
            base,
            ctx.js_bindings(),
            host,
        );
        return match answer {
            Ok(t) => if_fragment(t),
            Err(_) => None,
        };
    }
    let (_, script) = extract_js(i.as_str());
    if script.is_some() {
        return match eval_field(&s, i.as_str(), base, ctx, host) {
            Some(t) => if_fragment(t),
            None => None,
        };
    }
    let selector = match strip_prefix(i.as_str(), "@css:") {
        Some(x) => x,
        None => match strip_prefix(i.as_str(), "@CSS:") {
            Some(x) => x,
            None => {
                if starts_with(i.as_str(), "@") {
                    let _ = eval_field(&s, i.as_str(), base, ctx, host);
                    return None;
                }
                i
            },
        },
    };
    let found = select_list(doc, selector.as_str());
    assert(ints(found@).len() == found.len());
    if found.len() == 0 {
        return None;
    }
    assert(ints(found@)[0] == found@[0]);
    Some(outer_html(doc, found[0]))
}

/// The book that an HTML page describes.
pub open spec fn book_by_html(
    source: BookSource,
    body: Seq<char>,
    base: Seq<char>,
    rule: BookInfoRule,
    book_url: Seq<char>,
    c: CtxV,
    w: World,
    o: Oracle,
) -> (BookV, World) {
    let init = init_scope(opt_text(rule.init), body, base, c, w, o);
    let page = match init.html {
        Some(t) => t,
        None => body,
    };
    book_in(ScopeV::Page(page), source, rule, base, book_url, init.ctx, init.w, o)
}

/// Reads the book of a page by rules on its elements.
pub fn parse_book_info_html<E: ScriptEngine>(
    source: &BookSource,
    body: &str,
    base: &str,
    rule: &BookInfoRule,
    book_url: &str,
    ctx: &mut RuleVariableContext,
    host: &mut Host<E>,
) -> (r: Book)
    ensures
        r.is_fresh(),
        offline(old(host).log(), final(host).log()),
        forall|o: Oracle| #[trigger]
            agrees(final(host).log(), o) ==> book_by_html(
                *source,
                body@,
                base@,
                *rule,
                book_url@,
                old(ctx).model(),
                old(host).world(),
                o,
            ) == (r.model(), final(host).world()),
{
    broadcast use group_log;

    let ghost c0 = ctx.model();
    let ghost w0 = host.world();
    let doc = parse_document(body);
    let scoped = prepare_html_init_scope(&rule.init, &doc, base, ctx, host);
    let ghost log1 = host.log();
    let r = match scoped {
        Some(t) => {
            let page = parse_document(t.as_str());
            build_book(&Scope::Page(&page), source, rule, base, book_url, ctx, host)
        },
        None => build_book(&Scope::Page(&doc), source, rule, base, book_url, ctx, host),
    };
    proof {
        lemma_offline_on(old(host).log(), log1, host.log());
        assert forall|o: Oracle| #[trigger] agrees(host.log(), o) implies book_by_html(
            *source,
            body@,
            base@,
            *rule,
            book_url@,
            c0,
            w0,
            o,
        ) == (r.model(), host.world()) by {
            assert(agrees(log1, o));
        }
    }
    r
}

/// The node that the fields are read from: the first that the initial rule
/// selects, else the given one.
pub open spec fn xpath_scope(xml: Seq<char>, node: int, init: Option<Seq<char>>, w: World, o: Oracle) -> (int, World) {
    let found = plain_nodes(xml, node, or_blank(init), w, o);
    (
        if found.0.len() > 0 {
            found.0[0]
        } else {
            node
        },
        found.1,
    )
}

pub fn select_xpath_scope<E>(tree: &XmlTree<'_>, node: usize, init: &Option<String>, host: &mut Host<E>) -> (r: usize)
    requires
        tree.wf(),
        node < tree.dom().len(),
    ensures
        offline(old(host).log(), final(host).log()),
        forall|o: Oracle| #[trigger]
            agrees(final(host).log(), o) ==> xpath_scope(
                tree.source(),
                node as int,
                opt_text(*init),
                old(host).world(),
                o,
            ) == (r as int, final(host).world()),
        r < tree.dom().len(),
{
    let found = match init {
        Some(i) => plain_xpath_nodes(tree, node, i.as_str(), host),
        None => plain_xpath_nodes(tree, node, "", host),
    };
    proof {
        reveal_strlit("");
        assert(""@ =~= seq![]);
    }
    assert(ints(found@).len() == found.len());
    if found.len() > 0 {
        assert(ints(found@)[0] == found@[0]);
        found[0]
    } else {
        node
    }
}

/// What the initial rule of a JSON page leaves: the value that the fields are
/// read from, the context and the world.
pub struct JsonScopeOut {
    pub value: JsonV,
    pub ctx: CtxV,
    pub w: World,
}

/// The value that the fields of a JSON page are read from: the first that the
/// initial rule selects, else the whole page; its variables are set on the way.
pub open spec fn json_scope(
    v: JsonV,
    init: Option<Seq<char>>,
    base: Seq<char>,
    c: CtxV,
    w: World,
    o: Oracle,
) -> JsonScopeOut {
    let i = trim_of(or_blank(init));
    if i.len() == 0 || get_key(i) is Some {
        JsonScopeOut { value: v, ctx: c, w }
    } else {
        let puts = puts_of(i, 0);
        let st = put_all(ScopeV::Value(v), puts, puts.len() as int, i.len(), base, c, w, o);
        let m = mode_of(without_puts(i, 0), ParseMode::JsonPath, true);
        let expanded = interpolated(m.1, 0, crate::ext::json::json_text_of(v), base, st.0, Some(v), st.1, o);
        let pure = js_split(split_replacement(expanded.0).0).0;
        let found = query_of(v, pure);
        JsonScopeOut {
            value: if pure.len() == 0 || m.0 != ParseMode::JsonPath || found.len() == 0 {
                v
            } else {
                found[0]
            },
            ctx: st.0,
            w: expanded.1,
        }
    }
}

pub fn select_json_scope<E: ScriptEngine>(
    v: &Json,
    init: &Option<String>,
    base: &str,
    ctx: &mut RuleVariableContext,
    host: &mut Host<E>,
) -> (r: Json)
    ensures
        offline(old(host).log(), final(host).log()),
        forall|o: Oracle| #[trigger]
            agrees(final(host).log(), o) ==> json_scope(
                v.model(),
                opt_text(*init),
                base@,
                old(ctx).model(),
                old(host).world(),
                o,
            ) == (JsonScopeOut { value: r.model(), ctx: final(ctx).model(), w: final(host).world() }),
{
    broadcast use group_log;

    proof {
        reveal_strlit("");
        assert(""@ =~= seq![]);
    }
    let ghost c0 = ctx.model();
    let ghost w0 = host.world();
    let i = match init {
        Some(t) => trim(t.as_str()),
        None => trim(""),
    };
    if is_empty_text(i.as_str()) || direct_get_key(i.as_str()).is_some() {
        return copy_json(v);
    }
    let mut compiled = SourceRule::compile(i.as_str(), ParseMode::JsonPath, true);
    assert(put_models(compiled.put_entries@).len() == compiled.put_entries.len());
    let length: usize = i.as_str().unicode_len();
    eval_puts(&Scope::Value(v), &compiled.put_entries, length, base, ctx, host);
    let ghost log1 = host.log();
    let input = crate::ext::json::json_to_text(v);
    let expanded = interpolate_templates(compiled.rule.as_str(), input.as_str(), base, ctx, Some(v), host);
    compiled.make_up_rule(expanded.as_str());
    let (pure, _) = extract_js(compiled.rule.as_str());
    let r = if is_empty_text(pure.as_str()) || compiled.mode != ParseMode::JsonPath {
        copy_json(v)
    } else {
        let found = jsonpath_query(v, pure.as_str());
        assert(json_models(found@).len() == found.len());
        if found.len() > 0 {
            assert(json_models(found@)[0] == found@[0].model());
            copy_json(&found[0])
        } else {
            copy_json(v)
        }
    };
    proof {
        lemma_offline_on(old(host).log(), log1, host.log());
        assert forall|o: Oracle| #[trigger] agrees(host.log(), o) implies json_scope(
            v.model(),
            opt_text(*init),
            base@,
            c0,
            w0,
            o,
        ) == (JsonScopeOut { value: r.model(), ctx: ctx.model(), w: host.world() }) by {
            assert(agrees(log1, o));
        }
    }
    r
}

/// The book that a JSON value describes.
pub open spec fn book_by_json(
    source: BookSource,
    v: JsonV,
    base: Seq<char>,
    rule: BookInfoRule,
    book_url: Seq<char>,
    c: CtxV,
    w: World,
    o: Oracle,
) -> (BookV, World) {
    let scope = json_scope(v, opt_text(rule.init), base, c, w, o);
    book_in(ScopeV::Value(scope.value), source, rule, base, book_url, scope.ctx, scope.w, o)
}

/// Reads the book that a JSON value describes.
pub fn parse_book_info_json<E: ScriptEngine>(
    source: &BookSource,
    value: &Json,
    base: &str,
    rule: &BookInfoRule,
    book_url: &str,
    ctx: &mut RuleVariableContext,
    host: &mut Host<E>,
) -> (r: Book)
    ensures
        r.is_fresh(),
        offline(old(host).log(), final(host).log()),
        forall|o: Oracle| #[trigger]
            agrees(final(host).log(), o) ==> book_by_json(
                *source,
                value.model(),
                base@,
                *rule,
                book_url@,
                old(ctx).model(),
                old(host).world(),
                o,
            ) == (r.model(), final(host).world()),
{
    broadcast use group_log;

    let ghost c0 = ctx.model();
    let ghost w0 = host.world();
    let scope = select_json_scope(value, &rule.init, base, ctx, host);
    let ghost log1 = host.log();
    let r = build_book(&Scope::Value(&scope), source, rule, base, book_url, ctx, host);
    proof {
        lemma_offline_on(old(host).log(), log1, host.log());
        assert forall|o: Oracle| #[trigger] agrees(host.log(), o) implies book_by_json(
            *source,
            value.model(),
            base@,
            *rule,
            book_url@,
            c0,
            w0,
            o,
        ) == (r.model(), host.world()) by {
            assert(agrees(log1, o));
        }
    }
    r
}

/// The book that an XPath rule reads from a page; by elements where the page
/// cannot be read as XML.
pub open spec fn book_by_xpath(
    source: BookSource,
    body: Seq<char>,
    base: Seq<char>,
    rule: BookInfoRule,
    book_url: Seq<char>,
    c: CtxV,
    w: World,
    o: Oracle,
) -> (BookV, World) {
    match xpath_source(body) {
        Some(xml) => {
            let x = xpath_scope(xml, 0, opt_text(rule.init), w, o);
            book_in(ScopeV::Node(xml, x.0), source, rule, base, book_url, c, x.1, o)
        },
        None => book_by_html(source, body, base, rule, book_url, c, w, o),
    }
}

/// Reads the book of a page by XPath rules.
pub fn parse_book_info_xpath<E: ScriptEngine>(
    source: &BookSource,
    body: &str,
    base: &str,
    rule: &BookInfoRule,
    book_url: &str,
    ctx: &mut RuleVariableContext,
    host: &mut Host<E>,
) -> (r: Book)
    ensures
        r.is_fresh(),
        offline(old(host).log(), final(host).log()),
        forall|o: Oracle| #[trigger]
            agrees(final(host).log(), o) ==> book_by_xpath(
                *source,
                body@,
                base@,
                *rule,
                book_url@,
                old(ctx).model(),
                old(host).world(),
                o,
            ) == (r.model(), final(host).world()),
{
    broadcast use group_log;

    match parse_xpath_package(body) {
        Some(doc) => {
            let tree = open_xml(&doc);
            let scope = select_xpath_scope(&tree, 0, &rule.init, host);
            let ghost log1 = host.log();
            let r = build_book(&Scope::Node(&tree, scope), source, rule, base, book_url, ctx, host);
            proof {
                lemma_offline_on(old(host).log(), log1, host.log());
                assert forall|o: Oracle| #[trigger] agrees(host.log(), o) implies agrees(log1, o) by {}
            }
            r
        },
        None => parse_book_info_html(source, body, base, rule, book_url, ctx, host),
    }
}

/// The book that a page describes, read by the mode of the rule of its name.
pub open spec fn book_by_mode(
    source: BookSource,
    body: Seq<char>,
    base: Seq<char>,
    rule: BookInfoRule,
    book_url: Seq<char>,
    c: CtxV,
    w: World,
    o: Oracle,
) -> (BookV, World) {
    let mode = detected_mode(or_blank(opt_text(rule.name)), body);
    if mode == ParseMode::JsonPath && json_of(body) is Some {
        book_by_json(source, json_of(body)->0, base, rule, book_url, c, w, o)
    } else if mode == ParseMode::XPath {
        book_by_xpath(source, body, base, rule, book_url, c, w, o)
    } else {
        book_by_html(source, body, base, rule, book_url, c, w, o)
    }
}

pub fn detect_mode_of(rule: &str, content: &str) -> (r: ParseMode)
    ensures
        r == detected_mode(rule@, content@),
{
    let c = trim(content);
    let json = (starts_with(c.as_str(), "{") || starts_with(c.as_str(), "[")) && parse_json(c.as_str()).is_some();
    classify_rule_mode(rule, ParseMode::Css, json).0
}

pub fn text_of<'a>(o: &'a Option<String>) -> (r: &'a str)
    ensures
        r@ == or_blank(opt_text(*o)),
{
    match o {
        Some(t) => t.as_str(),
        None => {
            proof {
                reveal_strlit("");
                assert(""@ =~= seq![]);
            }
            ""
        },
    }
}

pub fn read_book<E: ScriptEngine>(
    source: &BookSource,
    body: &str,
    base: &str,
    rule: &BookInfoRule,
    book_url: &str,
    ctx: &mut RuleVariableContext,
    host: &mut Host<E>,
) -> (r: Book)
    ensures
        r.is_fresh(),
        offline(old(host).log(), final(host).log()),
        forall|o: Oracle| #[trigger]
            agrees(final(host).log(), o) ==> book_by_mode(
                *source,
                body@,
                base@,
                *rule,
                book_url@,
                old(ctx).model(),
                old(host).world(),
                o,
            ) == (r.model(), final(host).world()),
{
    broadcast use group_log;

    let ghost c0 = ctx.model();
    let ghost w0 = host.world();
    let mode = detect_mode_of(text_of(&rule.name), body);
    if mode == ParseMode::JsonPath {
        if let Some(v) = parse_json(body) {
            return parse_book_info_json(source, &v, base, rule, book_url, ctx, host);
        }
    }
    if mode == ParseMode::XPath {
        return parse_book_info_xpath(source, body, base, rule, book_url, ctx, host);
    }
    parse_book_info_html(source, body, base, rule, book_url, ctx, host)
}

pub open spec fn no_info_rule() -> BookInfoRule {
    BookInfoRule {
        init: None,
        name: None,
        author: None,
        intro: None,
        kind: None,
        last_chapter: None,
        update_time: None,
        cover_url: None,
        word_count: None,
        toc_url: None,
        can_re_name: None,
        download_urls: None,
    }
}

/// The rule of book pages, unset where the source has none.
pub open spec fn info_rule(source: BookSource) -> BookInfoRule {
    match source.rule_book_info {
        Some(r) => r,
        None => no_info_rule(),
    }
}

fn unset_info_rule() -> (r: BookInfoRule)
    ensures
        r == no_info_rule(),
{
    BookInfoRule {
        init: None,
        name: None,
        author: None,
        intro: None,
        kind: None,
        last_chapter: None,
        update_time: None,
        cover_url: None,
        word_count: None,
        toc_url: None,
        can_re_name: None,
        download_urls: None,
    }
}

/// The context of a book with the variables that it was saved with.
pub open spec fn book_context(variable: Option<Seq<char>>, name: Option<Seq<char>>) -> CtxV {
    CtxV { book: Some(variables_of(variable)), book_name: name, ..empty_context() }
}

/// The book that a page of a source describes.
pub open spec fn source_book(
    source: BookSource,
    body: Seq<char>,
    base: Seq<char>,
    book_url: Seq<char>,
    variable: Option<Seq<char>>,
    name: Option<Seq<char>>,
    w: World,
    o: Oracle,
) -> (BookV, World) {
    book_by_mode(source, body, base, info_rule(source), book_url, book_context(variable, name), w, o)
}

pub fn read_source_book<E: ScriptEngine>(
    source: &BookSource,
    body: &str,
    base: &str,
    book_url: &str,
    variable: Option<&str>,
    name: Option<&str>,
    host: &mut Host<E>,
) -> (r: Book)
    ensures
        r.is_fresh(),
        offline(old(host).log(), final(host).log()),
        forall|o: Oracle| #[trigger]
            agrees(final(host).log(), o) ==> source_book(
                *source,
                body@,
                base@,
                book_url@,
                opt_str(variable),
                opt_str(name),
                old(host).world(),
                o,
            ) == (r.model(), final(host).world()),
{
    let mut ctx = RuleVariableContext::for_book(variable, name);
    match &source.rule_book_info {
        Some(rule) => read_book(source, body, base, rule, book_url, &mut ctx, host),
        None => {
            let rule = unset_info_rule();
            read_book(source, body, base, &rule, book_url, &mut ctx, host)
        },
    }
}

/// The world with another script library in use.
pub open spec fn with_lib(w: World, lib: Option<Seq<char>>) -> World {
    World { lib, ..w }
}

/// What a computation gives while a source's script library is in use; the
/// library before it is in use again afterwards.
pub open spec fn lib_restored<T>(out: (T, World), w: World) -> (T, World) {
    (out.0, with_lib(out.1, w.lib))
}

pub fn lib_of(source: &BookSource) -> (r: Option<&str>)
    ensures
        opt_str(r) == opt_text(source.js_lib),
{
    match &source.js_lib {
        Some(s) => Some(s.as_str()),
        None => None,
    }
}

/// A book of its page as a result of a search, if it has a name.
pub open spec fn book_as_result(b: BookV) -> Option<FoundBookV> {
    if trim_of(b.name).len() == 0 {
        None
    } else {
        Some(
            FoundBookV {
                name: b.name,
                author: b.author,
                book_url: b.book_url,
                origin: b.origin,
                cover_url: b.cover_url,
                intro: b.intro,
                kind: b.kind,
                last_chapter: b.latest_chapter_title,
                update_time: b.update_time,
                word_count: b.word_count,
                variable: b.variable,
                book_source_urls: None,
            },
        )
    }
}

pub fn search_book_from_book(book: Book) -> (r: Option<SearchBook>)
    ensures
        opt_book(r) == book_as_result(book.model()),
{
    if is_empty_text(trim(book.name.as_str()).as_str()) {
        return None;
    }
    Some(
        SearchBook {
            name: book.name,
            author: book.author,
            book_url: book.book_url,
            origin: book.origin,
            cover_url: book.cover_url,
            intro: book.intro,
            kind: book.kind,
            last_chapter: book.latest_chapter_title,
            update_time: book.update_time,
            word_count: book.word_count,
            variable: book.variable,
            book_source_urls: None,
        },
    )
}

/// The result that a page gives as the page of a book itself.
pub open spec fn detail_result(source: BookSource, body: Seq<char>, base: Seq<char>, w: World, o: Oracle) -> (
    Option<FoundBookV>,
    World,
) {
    let got = source_book(source, body, base, base, None, None, w, o);
    (book_as_result(got.0), got.1)
}

pub fn search_detail_fallback<E: ScriptEngine>(source: &BookSource, body: &str, base: &str, host: &mut Host<E>) -> (r: Option<
    SearchBook,
>)
    ensures
        offline(old(host).log(), final(host).log()),
        forall|o: Oracle| #[trigger]
            agrees(final(host).log(), o) ==> detail_result(*source, body@, base@, old(host).world(), o) == (
                opt_book(r),
                final(host).world(),
            ),
{
    let book = read_source_book(source, body, base, base, None, None, host);
    search_book_from_book(book)
}

pub open spec fn same_result(a: FoundBookV, b: FoundBookV) -> bool {
    a.origin == b.origin && a.book_url == b.book_url
}

pub open spec fn has_result_like(s: Seq<FoundBookV>, b: FoundBookV) -> bool {
    exists|i: int| 0 <= i < s.len() && same_result(#[trigger] s[i], b)
}

/// The first `n` results without those whose origin and address are there already.
pub open spec fn deduped(s: Seq<FoundBookV>, n: int) -> Seq<FoundBookV>
    decreases n,
{
    if n <= 0 {
        seq![]
    } else {
        let before = deduped(s, n - 1);
        if has_result_like(before, s[n - 1]) {
            before
        } else {
            before.push(s[n - 1])
        }
    }
}

/// No two results of a list have both the origin and the address in common,
/// once repeated ones are dropped.
pub proof fn law_results_distinct(s: Seq<FoundBookV>, n: int)
    ensures
        forall|i: int, j: int|
            #![trigger deduped(s, n)[i], deduped(s, n)[j]]
            0 <= i < j < deduped(s, n).len() ==> !same_result(deduped(s, n)[i], deduped(s, n)[j]),
    decreases n,
{
    if n > 0 {
        law_results_distinct(s, n - 1);
        let before = deduped(s, n - 1);
        assert forall|i: int, j: int|
            #![trigger deduped(s, n)[i], deduped(s, n)[j]]
            0 <= i < j < deduped(s, n).len() implies !same_result(deduped(s, n)[i], deduped(s, n)[j]) by {
            if j < before.len() {
                assert(before[i] == deduped(s, n)[i] && before[j] == deduped(s, n)[j]);
            } else {
                assert(before[i] == deduped(s, n)[i]);
            }
        }
    }
}

/// Dropping repeated results keeps every origin and address that was there.
pub proof fn law_results_kept(s: Seq<FoundBookV>, n: int, i: int)
    requires
        0 <= i < n <= s.len(),
    ensures
        has_result_like(deduped(s, n), s[i]),
    decreases n,
{
    let before = deduped(s, n - 1);
    let all = deduped(s, n);
    if i < n - 1 {
        law_results_kept(s, n - 1, i);
        let k = choose|k: int| 0 <= k < before.len() && same_result(#[trigger] before[k], s[i]);
        assert(all[k] == before[k]);
        assert(same_result(all[k], s[i]));
    } else if !has_result_like(before, s[n - 1]) {
        assert(all[all.len() - 1] == s[n - 1]);
        assert(same_result(all[all.len() - 1], s[i]));
    }
}

pub fn dedupe_search_books(books: Vec<SearchBook>) -> (r: Vec<SearchBook>)
    ensures
        found_books(r@) == deduped(found_books(books@), books.len() as int),
{
    let mut rest = books;
    let ghost all = found_books(rest@);
    let ghost given = rest@;
    let total: usize = rest.len();
    let mut r: Vec<SearchBook> = Vec::new();
    let mut k: usize = 0;
    assert(found_books(r@) =~= seq![]);
    while k < total
        invariant
            k <= total,
            total == given.len(),
            all == found_books(given),
            rest@ =~= given.subrange(k as int, total as int),
            found_books(r@) == deduped(all, k as int),
        decreases total - k,
    {
        let book = rest.remove(0);
        assert(book == given[k as int]);
        assert(all[k as int] == book.model());
        let ghost before = found_books(r@);
        let mut seen = false;
        let mut j: usize = 0;
        while j < r.len()
            invariant
                j <= r.len(),
                before == found_books(r@),
                seen ==> has_result_like(before, book.model()),
                !seen ==> forall|i: int| 0 <= i < j ==> !same_result(#[trigger] before[i], book.model()),
            decreases r.len() - j,
        {
            assert(before[j as int] == r@[j as int].model());
            if same(r[j].origin.as_str(), book.origin.as_str()) && same(
                r[j].book_url.as_str(),
                book.book_url.as_str(),
            ) {
                assert(same_result(before[j as int], book.model()));
                seen = true;
            }
            j = j + 1;
        }
        if !seen {
            let ghost x = book.model();
            r.push(book);
            assert(found_books(r@) =~= before.push(x));
        }
        k = k + 1;
    }
    r
}

pub fn reverse_books(books: Vec<SearchBook>) -> (r: Vec<SearchBook>)
    ensures
        found_books(r@) == found_books(books@).reverse(),
{
    let mut rest = books;
    let ghost given = rest@;
    let total: usize = rest.len();
    let mut r: Vec<SearchBook> = Vec::new();
    let mut k: usize = total;
    while k > 0
        invariant
            k <= total,
            total == given.len(),
            rest@ =~= given.take(k as int),
            r@ =~= given.reverse().take(total - k),
        decreases k,
    {
        let book = rest.pop().unwrap();
        r.push(book);
        k = k - 1;
    }
    assert(found_books(r@) =~= found_books(given).reverse());
    r
}

/// The results of a page: those of its list; without any, and where the source
/// does not tell book pages by a pattern, the page as a book; each result once,
/// and in reverse order where the list rule asks for it.
pub open spec fn page_results(
    source: BookSource,
    rule: SearchRule,
    body: Seq<char>,
    base: Seq<char>,
    w: World,
    o: Oracle,
) -> (Seq<FoundBookV>, World) {
    let l = list_rule_of(or_blank(opt_text(rule.book_list)));
    let listed = books_by_mode(
        detected_mode(l.0, body),
        source.book_source_url@,
        body,
        base,
        rule,
        l.0,
        w,
        o,
    );
    let all = if listed.0.len() == 0 && !pattern_set(opt_text(source.book_url_pattern)) {
        let detail = detail_result(source, body, base, listed.1, o);
        match detail.0 {
            Some(b) => (seq![b], detail.1),
            None => (seq![], detail.1),
        }
    } else {
        listed
    };
    let once = deduped(all.0, all.0.len() as int);
    (
        if l.1 {
            once.reverse()
        } else {
            once
        },
        all.1,
    )
}

pub fn read_results<E: ScriptEngine>(source: &BookSource, rule: &SearchRule, body: &str, base: &str, host: &mut Host<E>) -> (r:
    Vec<SearchBook>)
    ensures
        offline(old(host).log(), final(host).log()),
        forall|o: Oracle| #[trigger]
            agrees(final(host).log(), o) ==> page_results(*source, *rule, body@, base@, old(host).world(), o) == (
                found_books(r@),
                final(host).world(),
            ),
{
    broadcast use group_log;

    let ghost w0 = host.world();
    let (list, reverse) = normalize_list_rule(text_of(&rule.book_list));
    let mode = detect_mode_of(list.as_str(), body);
    let mut results = search_books_by_mode(
        mode,
        source.book_source_url.as_str(),
        body,
        base,
        rule,
        list.as_str(),
        host,
    );
    let ghost log1 = host.log();
    let ghost listed = found_books(results@);
    assert(listed.len() == results.len());
    if results.len() == 0 && !has_book_url_pattern(&source.book_url_pattern) {
        if let Some(book) = search_detail_fallback(source, body, base, host) {
            let ghost x = book.model();
            results.push(book);
            assert(found_books(results@) =~= seq![x]);
        } else {
            assert(found_books(results@) =~= seq![]);
        }
    }
    let ghost all = found_books(results@);
    assert(all.len() == results.len());
    let once = dedupe_search_books(results);
    let r = if reverse {
        reverse_books(once)
    } else {
        once
    };
    proof {
        lemma_offline_on(old(host).log(), log1, host.log());
        assert forall|o: Oracle| #[trigger] agrees(host.log(), o) implies page_results(
            *source,
            *rule,
            body@,
            base@,
            w0,
            o,
        ) == (found_books(r@), host.world()) by {
            assert(agrees(log1, o));
        }
    }
    r
}

pub open spec fn no_search_rule() -> SearchRule {
    SearchRule {
        book_list: None,
        name: None,
        author: None,
        book_url: None,
        cover_url: None,
        intro: None,
        kind: None,
        last_chapter: None,
        update_time: None,
        word_count: None,
    }
}

pub open spec fn search_rule(source: BookSource) -> SearchRule {
    match source.rule_search {
        Some(r) => r,
        None => no_search_rule(),
    }
}

/// The rule of explore pages: their own where it names a list, else the rule of
/// searches.
pub open spec fn explore_rule(source: BookSource) -> SearchRule {
    match source.rule_explore {
        Some(r) => if trim_of(or_blank(opt_text(r.book_list))).len() > 0 {
            r
        } else {
            search_rule(source)
        },
        None => search_rule(source),
    }
}

fn unset_search_rule() -> (r: SearchRule)
    ensures
        r == no_search_rule(),
{
    SearchRule {
        book_list: None,
        name: None,
        author: None,
        book_url: None,
        cover_url: None,
        intro: None,
        kind: None,
        last_chapter: None,
        update_time: None,
        word_count: None,
    }
}

/// The results of a search page: where its address matches the source's
/// pattern for books it is read as a book, else as a list.
pub open spec fn search_results(source: BookSource, body: Seq<char>, base: Seq<char>, w: World, o: Oracle) -> (
    Seq<FoundBookV>,
    World,
) {
    if pattern_matches(opt_text(source.book_url_pattern), base) {
        let got = detail_result(source, body, base, w, o);
        match got.0 {
            Some(b) => (seq![b], got.1),
            None => (seq![], got.1),
        }
    } else {
        page_results(source, search_rule(source), body, base, w, o)
    }
}

impl RuleEngine {
    pub fn new() -> (r: Result<RuleEngine, String>)
        ensures
            r is Ok,
    {
        Ok(RuleEngine)
    }

    /// Tells the mode of a rule from the rule and its content.
    pub fn detect_mode(&self, rule: &str, content: &str) -> (r: ParseMode)
        ensures
            r == detected_mode(rule@, content@),
    {
        detect_mode_of(rule, content)
    }

    /// Reads the results of a search page.
    pub fn search_books<E: ScriptEngine>(
        &self,
        source: &BookSource,
        body: &str,
        base_url: &str,
        host: &mut Host<E>,
    ) -> (r: Vec<SearchBook>)
        ensures
            offline(old(host).log(), final(host).log()),
            forall|o: Oracle| #[trigger]
                agrees(final(host).log(), o) ==> lib_restored(
                    search_results(
                        *source,
                        body@,
                        base_url@,
                        with_lib(old(host).world(), opt_text(source.js_lib)),
                        o,
                    ),
                    old(host).world(),
                ) == (found_books(r@), final(host).world()),
    {
        broadcast use group_log;

        let saved = host.use_lib(lib_of(source));
        let r = if book_url_pattern_matches(&source.book_url_pattern, base_url) {
            let mut list: Vec<SearchBook> = Vec::new();
            if let Some(book) = search_detail_fallback(source, body, base_url, host) {
                let ghost x = book.model();
                list.push(book);
                assert(found_books(list@) =~= seq![x]);
            } else {
                assert(found_books(list@) =~= seq![]);
            }
            list
        } else {
            match &source.rule_search {
                Some(rule) => read_results(source, rule, body, base_url, host),
                None => {
                    let rule = unset_search_rule();
                    read_results(source, &rule, body, base_url, host)
                },
            }
        };
        let _ = host.swap_lib(saved);
        r
    }

    /// Reads the results of an explore page.
    pub fn explore_books<E: ScriptEngine>(
        &self,
        source: &BookSource,
        body: &str,
        base_url: &str,
        host: &mut Host<E>,
    ) -> (r: Vec<SearchBook>)
        ensures
            offline(old(host).log(), final(host).log()),
            forall|o: Oracle| #[trigger]
                agrees(final(host).log(), o) ==> lib_restored(
                    page_results(
                        *source,
                        explore_rule(*source),
                        body@,
                        base_url@,
                        with_lib(old(host).world(), opt_text(source.js_lib)),
                        o,
                    ),
                    old(host).world(),
                ) == (found_books(r@), final(host).world()),
    {
        broadcast use group_log;

        let saved = host.use_lib(lib_of(source));
        let mut own: Option<&SearchRule> = None;
        if let Some(rule) = &source.rule_explore {
            if !is_empty_text(trim(text_of(&rule.book_list)).as_str()) {
                own = Some(rule);
            }
        }
        let r = match own {
            Some(rule) => read_results(source, rule, body, base_url, host),
            None => match &source.rule_search {
                Some(rule) => read_results(source, rule, body, base_url, host),
                None => {
                    let rule = unset_search_rule();
                    read_results(source, &rule, body, base_url, host)
                },
            },
        };
        let _ = host.swap_lib(saved);
        r
    }

    /// Reads the page of a book.
    pub fn book_info<E: ScriptEngine>(
        &self,
        source: &BookSource,
        body: &str,
        base_url: &str,
        book_url: &str,
        host: &mut Host<E>,
    ) -> (r: Book)
        ensures
            r.is_fresh(),
            offline(old(host).log(), final(host).log()),
            forall|o: Oracle| #[trigger]
                agrees(final(host).log(), o) ==> lib_restored(
                    source_book(
                        *source,
                        body@,
                        base_url@,
                        book_url@,
                        None,
                        None,
                        with_lib(old(host).world(), opt_text(source.js_lib)),
                        o,
                    ),
                    old(host).world(),
                ) == (r.model(), final(host).world()),
    {
        self.book_info_with_variable(source, body, base_url, book_url, None, None, host)
    }

    /// Reads the page of a book that has variables and a name already.
    pub fn book_info_with_variable<E: ScriptEngine>(
        &self,
        source: &BookSource,
        body: &str,
        base_url: &str,
        book_url: &str,
        variable: Option<&str>,
        book_name: Option<&str>,
        host: &mut Host<E>,
    ) -> (r: Book)
        ensures
            r.is_fresh(),
            offline(old(host).log(), final(host).log()),
            forall|o: Oracle| #[trigger]
                agrees(final(host).log(), o) ==> lib_restored(
                    source_book(
                        *source,
                        body@,
                        base_url@,
                        book_url@,
                        opt_str(variable),
                        opt_str(book_name),
                        with_lib(old(host).world(), opt_text(source.js_lib)),
                        o,
                    ),
                    old(host).world(),
                ) == (r.model(), final(host).world()),
    {
        broadcast use group_log;

        let task = |h: &mut Host<E>| -> (r: Book)
            ensures
                r.is_fresh(),
                offline(old(h).log(), final(h).log()),
                forall|o: Oracle| #[trigger]
                    agrees(final(h).log(), o) ==> source_book(
                        *source,
                        body@,
                        base_url@,
                        book_url@,
                        opt_str(variable),
                        opt_str(book_name),
                        old(h).world(),
                        o,
                    ) == (r.model(), final(h).world()),
        {
            read_source_book(source, body, base_url, book_url, variable, book_name, h)
        };
        with_js_lib(lib_of(source), task, host)
    }
}

/// The variables that an item of a list brings along for its chapter.
pub open spec fn item_variable(s: ScopeV) -> Option<Seq<char>> {
    match s {
        ScopeV::Value(v) => match member_of(v, "variable"@) {
            Some(JsonV::Text(t)) => Some(t),
            _ => None,
        },
        _ => None,
    }
}

pub fn variable_of_item<'a>(s: &'a Scope) -> (r: Option<&'a str>)
    ensures
        opt_str(r) == item_variable(s.model()),
{
    broadcast use {lemma_array_model, lemma_object_model};

    match s {
        Scope::Value(v) => match v.get("variable") {
            Some(x) => x.as_text(),
            None => None,
        },
        _ => None,
    }
}

/// The rules of a chapter but its title, in the order of their evaluation.
pub open spec fn chapter_rules(rule: TocRule) -> Seq<Option<Seq<char>>> {
    seq![
        opt_text(rule.chapter_url),
        opt_text(rule.update_time),
        opt_text(rule.is_volume),
        opt_text(rule.is_vip),
        opt_text(rule.is_pay),
    ]
}

pub open spec fn is_set(o: Option<Seq<char>>) -> bool {
    match o {
        Some(t) => truthy(t),
        None => false,
    }
}

pub fn flag_of(o: Option<String>) -> (r: bool)
    ensures
        r == is_set(opt_text(o)),
{
    match o {
        Some(t) => is_truthy(t.as_str()),
        None => false,
    }
}

/// A chapter read from an item of a table of contents, as the chapter of the
/// given number.
pub open spec fn listed_chapter(
    s: ScopeV,
    rule: TocRule,
    base: Seq<char>,
    c: CtxV,
    skip_untitled: bool,
    index: int,
    w: World,
    o: Oracle,
) -> (Option<ChapterV>, World) {
    let c0 = CtxV { chapter: Some(variables_of(item_variable(s))), chapter_title: Some(""@), ..c };
    let name = rule_field(s, opt_text(rule.chapter_name), base, c0, w, o);
    let title = or_blank(name.value);
    if skip_untitled && title.len() == 0 {
        (None, name.w)
    } else {
        let rest = rule_fields(
            s,
            chapter_rules(rule),
            5,
            base,
            CtxV { chapter_title: Some(title), ..name.ctx },
            name.w,
            o,
        );
        let volume = is_set(rest.values[2]);
        (
            Some(
                ChapterV {
                    title,
                    url: chapter_url(base, or_blank(rest.values[0]), title, volume, index),
                    index: index as i32,
                    tag: rest.values[1],
                    is_vip: is_set(rest.values[3]),
                    is_pay: is_set(rest.values[4]),
                    is_volume: volume,
                    variable: variables_text(rest.ctx.chapter),
                },
            ),
            rest.w,
        )
    }
}

pub open spec fn opt_chapter(o: Option<BookChapter>) -> Option<ChapterV> {
    match o {
        Some(c) => Some(c.model()),
        None => None,
    }
}

pub fn build_chapter<E: ScriptEngine>(
    s: &Scope,
    rule: &TocRule,
    base: &str,
    ctx: &RuleVariableContext,
    skip_untitled: bool,
    index: usize,
    host: &mut Host<E>,
) -> (r: Option<BookChapter>)
    requires
        s.wf(),
    ensures
        offline(old(host).log(), final(host).log()),
        forall|o: Oracle| #[trigger]
            agrees(final(host).log(), o) ==> listed_chapter(
                s.model(),
                *rule,
                base@,
                ctx.model(),
                skip_untitled,
                index as int,
                old(host).world(),
                o,
            ) == (opt_chapter(r), final(host).world()),
{
    broadcast use group_log;

    let ghost w0 = host.world();
    let mut own = ctx.for_chapter(variable_of_item(s), "");
    let title = text_or_blank(eval_rule(s, &rule.chapter_name, base, &mut own, host));
    let ghost log1 = host.log();
    if skip_untitled && is_empty_text(title.as_str()) {
        return None;
    }
    own.chapter_title = Some(title.clone());
    let mut rules: Vec<&Option<String>> = Vec::new();
    rules.push(&rule.chapter_url);
    rules.push(&rule.update_time);
    rules.push(&rule.is_volume);
    rules.push(&rule.is_vip);
    rules.push(&rule.is_pay);
    assert(rule_texts(rules@) =~= chapter_rules(*rule));
    let mut v = eval_rules(s, &rules, base, &mut own, host);
    let ghost all = opt_texts(v@);
    assert(all.len() == 5);
    let raw = text_or_blank(take_value(&mut v, 0));
    let tag = take_value(&mut v, 1);
    let is_volume = flag_of(take_value(&mut v, 2));
    let is_vip = flag_of(take_value(&mut v, 3));
    let is_pay = flag_of(take_value(&mut v, 4));
    let url = finalize_chapter_url(base, raw.as_str(), title.as_str(), is_volume, index);
    let chapter = BookChapter {
        title,
        url,
        #[verifier::truncate]
        index: index as i32,
        tag,
        is_vip,
        is_pay,
        is_volume,
        variable: own.chapter_variable(),
    };
    proof {
        lemma_offline_on(old(host).log(), log1, host.log());
        assert forall|o: Oracle| #[trigger] agrees(host.log(), o) implies listed_chapter(
            s.model(),
            *rule,
            base@,
            ctx.model(),
            skip_untitled,
            index as int,
            w0,
            o,
        ) == (Some(chapter.model()), host.world()) by {
            assert(agrees(log1, o));
        }
    }
    Some(chapter)
}

pub open spec fn has_url(s: Seq<ChapterV>, url: Seq<char>) -> bool {
    exists|i: int| 0 <= i < s.len() && (#[trigger] s[i]).url == url
}

/// The chapters read from the first `n` items; one whose address is there
/// already is dropped.
pub open spec fn listed_chapters(
    items: Seq<ScopeV>,
    n: int,
    rule: TocRule,
    base: Seq<char>,
    c: CtxV,
    skip_untitled: bool,
    w: World,
    o: Oracle,
) -> (Seq<ChapterV>, World)
    decreases n,
{
    if n <= 0 {
        (seq![], w)
    } else {
        let before = listed_chapters(items, n - 1, rule, base, c, skip_untitled, w, o);
        let got = listed_chapter(
            items[n - 1],
            rule,
            base,
            c,
            skip_untitled,
            before.0.len() as int,
            before.1,
            o,
        );
        match got.0 {
            Some(ch) => if has_url(before.0, ch.url) {
                (before.0, got.1)
            } else {
                (before.0.push(ch), got.1)
            },
            None => (before.0, got.1),
        }
    }
}

/// The chapters of a table of contents all have different addresses, and each
/// is numbered by its place.
pub proof fn law_chapters_distinct(
    items: Seq<ScopeV>,
    n: int,
    rule: TocRule,
    base: Seq<char>,
    c: CtxV,
    skip_untitled: bool,
    w: World,
    o: Oracle,
)
    ensures
        ({
            let s = listed_chapters(items, n, rule, base, c, skip_untitled, w, o).0;
            &&& forall|i: int, j: int| #![trigger s[i], s[j]] 0 <= i < j < s.len() ==> s[i].url != s[j].url
            &&& forall|i: int| 0 <= i < s.len() ==> (#[trigger] s[i]).index == i as i32
        }),
    decreases n,
{
    if n > 0 {
        law_chapters_distinct(items, n - 1, rule, base, c, skip_untitled, w, o);
    }
}

pub fn build_chapters<E: ScriptEngine>(
    items: &Vec<Scope>,
    rule: &TocRule,
    base: &str,
    ctx: &RuleVariableContext,
    skip_untitled: bool,
    host: &mut Host<E>,
) -> (r: Vec<BookChapter>)
    requires
        forall|i: int| 0 <= i < items.len() ==> (#[trigger] items@[i]).wf(),
    ensures
        offline(old(host).log(), final(host).log()),
        forall|o: Oracle| #[trigger]
            agrees(final(host).log(), o) ==> listed_chapters(
                scopes(items@),
                items.len() as int,
                *rule,
                base@,
                ctx.model(),
                skip_untitled,
                old(host).world(),
                o,
            ) == (chapter_models(r@), final(host).world()),
{
    broadcast use group_log;

    let ghost w0 = host.world();
    let ghost all = scopes(items@);
    let mut r: Vec<BookChapter> = Vec::new();
    let mut k: usize = 0;
    assert(chapter_models(r@) =~= seq![]);
    while k < items.len()
        invariant
            k <= items.len(),
            forall|i: int| 0 <= i < items.len() ==> (#[trigger] items@[i]).wf(),
            all == scopes(items@),
            w0 == old(host).world(),
            offline(old(host).log(), host.log()),
            forall|o: Oracle| #[trigger]
                agrees(host.log(), o) ==> listed_chapters(
                    all,
                    k as int,
                    *rule,
                    base@,
                    ctx.model(),
                    skip_untitled,
                    w0,
                    o,
                ) == (chapter_models(r@), host.world()),
        decreases items.len() - k,
    {
        let ghost log1 = host.log();
        let ghost before = chapter_models(r@);
        assert(before.len() == r.len());
        assert(all[k as int] == items@[k as int].model());
        let got = build_chapter(&items[k], rule, base, ctx, skip_untitled, r.len(), host);
        let ghost x = opt_chapter(got);
        if let Some(chapter) = got {
            let mut seen = false;
            let mut j: usize = 0;
            while j < r.len()
                invariant
                    j <= r.len(),
                    before == chapter_models(r@),
                    seen ==> has_url(before, chapter.url@),
                    !seen ==> forall|i: int| 0 <= i < j ==> (#[trigger] before[i]).url != chapter.url@,
                decreases r.len() - j,
            {
                assert(before[j as int] == r@[j as int].model());
                if same(r[j].url.as_str(), chapter.url.as_str()) {
                    assert(before[j as int].url == chapter.url@);
                    seen = true;
                }
                j = j + 1;
            }
            if !seen {
                r.push(chapter);
                assert(chapter_models(r@) =~= before.push(x->0));
            }
        }
        proof {
            lemma_offline_on(old(host).log(), log1, host.log());
            assert forall|o: Oracle| #[trigger] agrees(host.log(), o) implies listed_chapters(
                all,
                k + 1,
                *rule,
                base@,
                ctx.model(),
                skip_untitled,
                w0,
                o,
            ) == (chapter_models(r@), host.world()) by {
                assert(agrees(log1, o));
            }
        }
        k = k + 1;
    }
    r
}

/// A table of contents: its chapters, the addresses of its further pages, and
/// the context and world after it was read.
pub struct TocOut {
    pub chapters: Seq<ChapterV>,
    pub next: Seq<Seq<char>>,
    pub ctx: CtxV,
    pub w: World,
}

pub open spec fn toc_of(
    items: Seq<ScopeV>,
    next: Seq<Seq<char>>,
    rule: TocRule,
    base: Seq<char>,
    c: CtxV,
    skip_untitled: bool,
    w: World,
    o: Oracle,
) -> TocOut {
    let got = listed_chapters(items, items.len() as int, rule, base, c, skip_untitled, w, o);
    TocOut { chapters: got.0, next: next_pages(base, next, next.len() as int), ctx: c, w: got.1 }
}

pub open spec fn empty_toc(c: CtxV, w: World) -> TocOut {
    TocOut { chapters: seq![], next: seq![], ctx: c, w }
}

/// The table of contents of an HTML page.
pub open spec fn toc_by_html(
    body: Seq<char>,
    base: Seq<char>,
    rule: TocRule,
    list: Seq<char>,
    c: CtxV,
    w: World,
    o: Oracle,
) -> TocOut {
    if trim_of(list).len() == 0 {
        empty_toc(c, w)
    } else {
        let init = rule_field(ScopeV::Page(body), opt_text(rule.init), base, c, w, o);
        toc_of(
            element_scopes(body, list_of(body, without_mode(list))),
            text_list(body, or_blank(opt_text(rule.next_toc_url))),
            rule,
            base,
            init.ctx,
            false,
            init.w,
            o,
        )
    }
}

fn no_chapters() -> (r: (Vec<BookChapter>, Vec<String>))
    ensures
        chapter_models(r.0@) == Seq::<ChapterV>::empty(),
        texts(r.1@) == Seq::<Seq<char>>::empty(),
{
    let a: Vec<BookChapter> = Vec::new();
    let b: Vec<String> = Vec::new();
    assert(chapter_models(a@) =~= Seq::empty());
    assert(texts(b@) =~= Seq::empty());
    (a, b)
}

pub fn parse_chapter_list_html<E: ScriptEngine>(
    body: &str,
    base: &str,
    rule: &TocRule,
    list: &str,
    ctx: &mut RuleVariableContext,
    host: &mut Host<E>,
) -> (r: (Vec<BookChapter>, Vec<String>))
    ensures
        offline(old(host).log(), final(host).log()),
        forall|o: Oracle| #[trigger]
            agrees(final(host).log(), o) ==> toc_by_html(
                body@,
                base@,
                *rule,
                list@,
                old(ctx).model(),
                old(host).world(),
                o,
            ) == (TocOut {
                chapters: chapter_models(r.0@),
                next: texts(r.1@),
                ctx: final(ctx).model(),
                w: final(host).world(),
            }),
{
    broadcast use group_log;

    let ghost c0 = ctx.model();
    let ghost w0 = host.world();
    if is_empty_text(trim(list).as_str()) {
        return no_chapters();
    }
    let doc = parse_document(body);
    let _ = eval_rule(&Scope::Page(&doc), &rule.init, base, ctx, host);
    let ghost log1 = host.log();
    let nodes = select_list(&doc, strip_mode_prefix(list).as_str());
    let items = scopes_of_elements(&doc, &nodes);
    assert(scopes(items@).len() == items.len());
    let chapters = build_chapters(&items, rule, base, ctx, false, host);
    let raw = select_text_list(&doc, text_of(&rule.next_toc_url));
    assert(texts(raw@).len() == raw.len());
    let next = normalize_toc_next_urls(base, &raw);
    proof {
        lemma_offline_on(old(host).log(), log1, host.log());
        assert forall|o: Oracle| #[trigger] agrees(host.log(), o) implies toc_by_html(
            body@,
            base@,
            *rule,
            list@,
            c0,
            w0,
            o,
        ) == (TocOut { chapters: chapter_models(chapters@), next: texts(next@), ctx: ctx.model(), w: host.world() }) by {
            assert(agrees(log1, o));
        }
    }
    (chapters, next)
}

/// The table of contents of a page that is read by XPath; as HTML where the
/// page cannot be parsed for it.
pub open spec fn toc_by_xpath(
    body: Seq<char>,
    base: Seq<char>,
    rule: TocRule,
    list: Seq<char>,
    c: CtxV,
    w: World,
    o: Oracle,
) -> TocOut {
    match xpath_source(body) {
        Some(xml) => {
            let scope = xpath_scope(xml, 0, opt_text(rule.init), w, o);
            let nodes = plain_nodes(xml, scope.0, list, scope.1, o);
            let next = plain_strings(xml, scope.0, or_blank(opt_text(rule.next_toc_url)), nodes.1, o);
            toc_of(node_scopes(xml, nodes.0), next.0, rule, base, c, false, next.1, o)
        },
        None => toc_by_html(body, base, rule, list, c, w, o),
    }
}

/// Reads the chapters of a page by XPath rules.
pub fn parse_chapter_list_xpath<E: ScriptEngine>(
    body: &str,
    base: &str,
    rule: &TocRule,
    list: &str,
    ctx: &mut RuleVariableContext,
    host: &mut Host<E>,
) -> (r: (Vec<BookChapter>, Vec<String>))
    ensures
        offline(old(host).log(), final(host).log()),
        forall|o: Oracle| #[trigger]
            agrees(final(host).log(), o) ==> toc_by_xpath(
                body@,
                base@,
                *rule,
                list@,
                old(ctx).model(),
                old(host).world(),
                o,
            ) == (TocOut {
                chapters: chapter_models(r.0@),
                next: texts(r.1@),
                ctx: final(ctx).model(),
                w: final(host).world(),
            }),
{
    broadcast use group_log;

    match parse_xpath_package(body) {
        Some(doc) => {
            let tree = open_xml(&doc);
            let scope = select_xpath_scope(&tree, 0, &rule.init, host);
            let ghost log1 = host.log();
            let nodes = plain_xpath_nodes(&tree, scope, list, host);
            let ghost log2 = host.log();
            let items = scopes_of_nodes(&tree, &nodes);
            assert(scopes(items@).len() == items.len());
            let raw = plain_xpath_strings(&tree, scope, text_of(&rule.next_toc_url), host);
            let ghost log3 = host.log();
            assert(texts(raw@).len() == raw.len());
            let chapters = build_chapters(&items, rule, base, ctx, false, host);
            let next = normalize_toc_next_urls(base, &raw);
            proof {
                lemma_offline_on(old(host).log(), log1, log2);
                lemma_offline_on(old(host).log(), log2, log3);
                lemma_offline_on(old(host).log(), log3, host.log());
                assert forall|o: Oracle| #[trigger] agrees(host.log(), o) implies agrees(log1, o) && agrees(log2, o)
                    && agrees(log3, o) by {
                    assert(agrees(log3, o));
                    assert(agrees(log2, o));
                }
            }
            (chapters, next)
        },
        None => parse_chapter_list_html(body, base, rule, list, ctx, host),
    }
}

/// The strings among the first `n` values.
pub open spec fn strings_in(v: Seq<JsonV>, n: int) -> Seq<Seq<char>>
    decreases n,
{
    if n <= 0 {
        seq![]
    } else {
        match v[n - 1] {
            JsonV::Text(t) => strings_in(v, n - 1).push(t),
            _ => strings_in(v, n - 1),
        }
    }
}

pub fn collect_strings(values: &Vec<Json>) -> (r: Vec<String>)
    ensures
        texts(r@) == strings_in(json_models(values@), values.len() as int),
{
    broadcast use {lemma_array_model, lemma_object_model};

    let mut r: Vec<String> = Vec::new();
    let mut k: usize = 0;
    assert(texts(r@) =~= seq![]);
    while k < values.len()
        invariant
            k <= values.len(),
            texts(r@) == strings_in(json_models(values@), k as int),
        decreases values.len() - k,
    {
        assert(json_models(values@)[k as int] == values@[k as int].model());
        let ghost before = texts(r@);
        if let Json::Text(t) = &values[k] {
            r.push(t.clone());
            assert(texts(r@) =~= before.push(t@));
        }
        k = k + 1;
    }
    r
}

/// The table of contents of a JSON page.
pub open spec fn toc_by_json(
    body: Seq<char>,
    base: Seq<char>,
    rule: TocRule,
    list: Seq<char>,
    c: CtxV,
    w: World,
    o: Oracle,
) -> TocOut {
    match json_of(body) {
        Some(v) => {
            let scope = json_scope(v, opt_text(rule.init), base, c, w, o);
            let next = match rule.next_toc_url {
                Some(r) => {
                    let found = query_of(scope.value, r@);
                    strings_in(found, found.len() as int)
                },
                None => seq![],
            };
            toc_of(
                value_scopes(query_of(scope.value, list)),
                next,
                rule,
                base,
                scope.ctx,
                false,
                scope.w,
                o,
            )
        },
        None => empty_toc(c, w),
    }
}

pub fn parse_chapter_list_json<E: ScriptEngine>(
    body: &str,
    base: &str,
    rule: &TocRule,
    list: &str,
    ctx: &mut RuleVariableContext,
    host: &mut Host<E>,
) -> (r: (Vec<BookChapter>, Vec<String>))
    ensures
        offline(old(host).log(), final(host).log()),
        forall|o: Oracle| #[trigger]
            agrees(final(host).log(), o) ==> toc_by_json(
                body@,
                base@,
                *rule,
                list@,
                old(ctx).model(),
                old(host).world(),
                o,
            ) == (TocOut {
                chapters: chapter_models(r.0@),
                next: texts(r.1@),
                ctx: final(ctx).model(),
                w: final(host).world(),
            }),
{
    broadcast use group_log;

    let ghost c0 = ctx.model();
    let ghost w0 = host.world();
    let v = match parse_json(body) {
        Some(v) => v,
        None => {
            return no_chapters();
        },
    };
    let scope = select_json_scope(&v, &rule.init, base, ctx, host);
    let ghost log1 = host.log();
    let found = jsonpath_query(&scope, list);
    let items = scopes_of_values(&found);
    assert(scopes(items@).len() == items.len());
    let chapters = build_chapters(&items, rule, base, ctx, false, host);
    let raw = match &rule.next_toc_url {
        Some(r) => {
            let pages = jsonpath_query(&scope, r.as_str());
            assert(json_models(pages@).len() == pages.len());
            collect_strings(&pages)
        },
        None => {
            let empty: Vec<String> = Vec::new();
            assert(texts(empty@) =~= seq![]);
            empty
        },
    };
    assert(texts(raw@).len() == raw.len());
    let next = normalize_toc_next_urls(base, &raw);
    proof {
        lemma_offline_on(old(host).log(), log1, host.log());
        assert forall|o: Oracle| #[trigger] agrees(host.log(), o) implies toc_by_json(
            body@,
            base@,
            *rule,
            list@,
            c0,
            w0,
            o,
        ) == (TocOut { chapters: chapter_models(chapters@), next: texts(next@), ctx: ctx.model(), w: host.world() }) by {
            assert(agrees(log1, o));
        }
    }
    (chapters, next)
}

/// The texts of all values that have one.
pub open spec fn all_value_texts(v: Seq<JsonV>) -> Seq<Seq<char>> {
    value_texts(v, v.len() as int)
}

pub fn collect_value_texts(values: &Vec<Json>) -> (r: Vec<String>)
    ensures
        texts(r@) == all_value_texts(json_models(values@)),
{
    let ghost all = json_models(values@);
    let mut r: Vec<String> = Vec::new();
    let mut k: usize = 0;
    assert(texts(r@) =~= seq![]);
    while k < values.len()
        invariant
            k <= values.len(),
            all == json_models(values@),
            texts(r@) == value_texts(all, k as int),
        decreases values.len() - k,
    {
        assert(all[k as int] == values@[k as int].model());
        if let Some(t) = value_to_string(&values[k]) {
            let ghost before = texts(r@);
            let ghost x = t@;
            r.push(t);
            assert(texts(r@) =~= before.push(x));
        }
        k = k + 1;
    }
    assert(all.len() == values.len());
    r
}

/// The addresses that the rule of further pages gives for a page, as they stand
/// there.
pub open spec fn raw_next_urls(rule: Seq<char>, body: Seq<char>, base: Seq<char>, c: CtxV, w: World, o: Oracle) -> (
    Seq<Seq<char>>,
    World,
) {
    let pure = without_mode(rule);
    match detected_mode(rule, body) {
        ParseMode::JsonPath => match json_of(body) {
            Some(v) => (all_value_texts(query_of(v, pure)), w),
            None => (seq![], w),
        },
        ParseMode::XPath => document_strings(body, pure, false, w, o),
        ParseMode::Js => {
            let got = called(page_call(pure, body, base, Some(bindings_of(c)), false), w, o);
            (
                match got.0 {
                    Ok(t) => match output_items(t) {
                        Some(items) => all_value_texts(items),
                        None => seq![t],
                    },
                    Err(_) => seq![],
                },
                got.1,
            )
        },
        ParseMode::Regex => {
            let rows = capture_rows(trim_of(trim_start_char(pure, ':')), body);
            (row_values(rows, rows.len() as int), w)
        },
        ParseMode::Css => (text_list(body, pure), w),
    }
}

fn no_texts() -> (r: Vec<String>)
    ensures
        texts(r@) == Seq::<Seq<char>>::empty(),
{
    let r: Vec<String> = Vec::new();
    assert(texts(r@) =~= Seq::empty());
    r
}

fn one_text(t: String) -> (r: Vec<String>)
    ensures
        texts(r@) == seq![t@],
        r.len() == 1,
{
    let mut r: Vec<String> = Vec::new();
    let ghost x = t@;
    r.push(t);
    assert(texts(r@) =~= seq![x]);
    r
}

pub fn collect_next_urls<E: ScriptEngine>(
    rule: &str,
    body: &str,
    base: &str,
    ctx: &RuleVariableContext,
    host: &mut Host<E>,
) -> (r: Vec<String>)
    ensures
        offline(old(host).log(), final(host).log()),
        forall|o: Oracle| #[trigger]
            agrees(final(host).log(), o) ==> raw_next_urls(rule@, body@, base@, ctx.model(), old(host).world(), o) == (
                texts(r@),
                final(host).world(),
            ),
{
    broadcast use group_log;

    let pure = strip_mode_prefix(rule);
    match detect_mode_of(rule, body) {
        ParseMode::JsonPath => match parse_json(body) {
            Some(v) => collect_value_texts(&jsonpath_query(&v, pure.as_str())),
            None => no_texts(),
        },
        ParseMode::XPath => select_xpath(body, pure.as_str(), host),
        ParseMode::Js => match eval_js_with_bindings(pure.as_str(), body, base, ctx.js_bindings(), host) {
            Ok(t) => match parse_js_output_items(t.as_str()) {
                Some(items) => collect_value_texts(&items),
                None => one_text(t),
            },
            Err(_) => no_texts(),
        },
        ParseMode::Regex => {
            let rows = regex_capture_rows(
                trim(trim_start_of_char(pure.as_str(), ':').as_str()).as_str(),
                body,
            );
            assert(group_rows(rows@).len() == rows.len());
            all_captures(&rows)
        },
        ParseMode::Css => {
            let doc = parse_document(body);
            select_text_list(&doc, pure.as_str())
        },
    }
}

/// The further pages of a table of contents that is read by a script.
pub open spec fn next_toc_pages(rule: TocRule, body: Seq<char>, base: Seq<char>, c: CtxV, w: World, o: Oracle) -> (
    Seq<Seq<char>>,
    World,
) {
    let r = trim_of(or_blank(opt_text(rule.next_toc_url)));
    if r.len() == 0 {
        (seq![], w)
    } else {
        match get_key(r) {
            Some(key) => {
                let got = context_get(c, key, w, o);
                (
                    match got.0 {
                        Some(t) => next_pages(base, seq![t], 1),
                        None => seq![],
                    },
                    got.1,
                )
            },
            None => {
                let expanded = interpolated(r, 0, body, base, c, None, w, o);
                let got = raw_next_urls(expanded.0, body, base, c, expanded.1, o);
                (next_pages(base, got.0, got.0.len() as int), got.1)
            },
        }
    }
}

pub fn parse_next_toc_urls<E: ScriptEngine>(
    body: &str,
    base: &str,
    rule: &TocRule,
    ctx: &RuleVariableContext,
    host: &mut Host<E>,
) -> (r: Vec<String>)
    ensures
        offline(old(host).log(), final(host).log()),
        forall|o: Oracle| #[trigger]
            agrees(final(host).log(), o) ==> next_toc_pages(*rule, body@, base@, ctx.model(), old(host).world(), o) == (
                texts(r@),
                final(host).world(),
            ),
{
    broadcast use group_log;

    let ghost w0 = host.world();
    let next_rule = trim(text_of(&rule.next_toc_url));
    if is_empty_text(next_rule.as_str()) {
        return no_texts();
    }
    if let Some(key) = direct_get_key(next_rule.as_str()) {
        return match ctx.get(key.as_str(), host) {
            Some(t) => normalize_toc_next_urls(base, &one_text(t)),
            None => no_texts(),
        };
    }
    let expanded = interpolate_templates(next_rule.as_str(), body, base, ctx, None, host);
    let ghost log1 = host.log();
    let raw = collect_next_urls(expanded.as_str(), body, base, ctx, host);
    assert(texts(raw@).len() == raw.len());
    let r = normalize_toc_next_urls(base, &raw);
    proof {
        lemma_offline_on(old(host).log(), log1, host.log());
        assert forall|o: Oracle| #[trigger] agrees(host.log(), o) implies next_toc_pages(
            *rule,
            body@,
            base@,
            ctx.model(),
            w0,
            o,
        ) == (texts(r@), host.world()) by {
            assert(agrees(log1, o));
        }
    }
    r
}

/// The table of contents of a list rule that is a script. The further pages are
/// found before the script runs; a script that fails gives nothing at all.
pub open spec fn toc_by_script(
    body: Seq<char>,
    base: Seq<char>,
    rule: TocRule,
    list: Seq<char>,
    c: CtxV,
    w: World,
    o: Oracle,
) -> TocOut {
    let next = next_toc_pages(rule, body, base, c, w, o);
    let got = called(page_call(without_mode(list), body, base, Some(bindings_of(c)), false), next.1, o);
    match got.0 {
        Ok(output) => {
            let items = match output_items(output) {
                Some(items) => value_scopes(items),
                None => element_scopes(output, selected(output, "body > *"@)),
            };
            let chapters = listed_chapters(items, items.len() as int, rule, base, c, true, got.1, o);
            TocOut { chapters: chapters.0, next: next.0, ctx: c, w: chapters.1 }
        },
        Err(_) => empty_toc(c, got.1),
    }
}

pub fn parse_chapter_list_js<E: ScriptEngine>(
    body: &str,
    base: &str,
    rule: &TocRule,
    list: &str,
    ctx: &RuleVariableContext,
    host: &mut Host<E>,
) -> (r: (Vec<BookChapter>, Vec<String>))
    ensures
        offline(old(host).log(), final(host).log()),
        forall|o: Oracle| #[trigger]
            agrees(final(host).log(), o) ==> toc_by_script(
                body@,
                base@,
                *rule,
                list@,
                ctx.model(),
                old(host).world(),
                o,
            ) == (TocOut {
                chapters: chapter_models(r.0@),
                next: texts(r.1@),
                ctx: ctx.model(),
                w: final(host).world(),
            }),
{
    broadcast use group_log;

    let ghost w0 = host.world();
    let next = parse_next_toc_urls(body, base, rule, ctx, host);
    let ghost log1 = host.log();
    let answer = eval_js_with_bindings(strip_mode_prefix(list).as_str(), body, base, ctx.js_bindings(), host);
    let ghost log2 = host.log();
    proof {
        lemma_offline_on(old(host).log(), log1, log2);
    }
    let output = match answer {
        Ok(output) => output,
        Err(_) => {
            proof {
                assert forall|o: Oracle| #[trigger] agrees(host.log(), o) implies toc_by_script(
                    body@,
                    base@,
                    *rule,
                    list@,
                    ctx.model(),
                    w0,
                    o,
                ) == empty_toc(ctx.model(), host.world()) by {
                    assert(agrees(log1, o));
                }
            }
            return no_chapters();
        },
    };
    let chapters = match parse_js_output_items(output.as_str()) {
        Some(found) => {
            let items = scopes_of_values(&found);
            assert(scopes(items@).len() == items.len());
            build_chapters(&items, rule, base, ctx, true, host)
        },
        None => {
            let doc = parse_document(output.as_str());
            let nodes = select_css_list(&doc, "body > *");
            let items = scopes_of_elements(&doc, &nodes);
            assert(scopes(items@).len() == items.len());
            build_chapters(&items, rule, base, ctx, true, host)
        },
    };
    proof {
        lemma_offline_on(old(host).log(), log2, host.log());
        assert forall|o: Oracle| #[trigger] agrees(host.log(), o) implies toc_by_script(
            body@,
            base@,
            *rule,
            list@,
            ctx.model(),
            w0,
            o,
        ) == (TocOut { chapters: chapter_models(chapters@), next: texts(next@), ctx: ctx.model(), w: host.world() }) by {
            assert(agrees(log2, o));
            assert(agrees(log1, o));
        }
    }
    (chapters, next)
}

/// The table of contents that a list rule of some mode gives for a page.
pub open spec fn toc_by_mode(
    mode: ParseMode,
    body: Seq<char>,
    base: Seq<char>,
    rule: TocRule,
    list: Seq<char>,
    c: CtxV,
    w: World,
    o: Oracle,
) -> TocOut {
    match mode {
        ParseMode::JsonPath => toc_by_json(body, base, rule, list, c, w, o),
        ParseMode::XPath => toc_by_xpath(body, base, rule, list, c, w, o),
        ParseMode::Js => toc_by_script(body, base, rule, list, c, w, o),
        ParseMode::Regex => toc_of(
            row_scopes(capture_rows(without_mode(list), body)),
            seq![],
            rule,
            base,
            c,
            true,
            w,
            o,
        ),
        ParseMode::Css => toc_by_html(body, base, rule, list, c, w, o),
    }
}

pub fn parse_chapter_list<E: ScriptEngine>(
    mode: ParseMode,
    body: &str,
    base: &str,
    rule: &TocRule,
    list: &str,
    ctx: &mut RuleVariableContext,
    host: &mut Host<E>,
) -> (r: (Vec<BookChapter>, Vec<String>))
    ensures
        offline(old(host).log(), final(host).log()),
        forall|o: Oracle| #[trigger]
            agrees(final(host).log(), o) ==> toc_by_mode(
                mode,
                body@,
                base@,
                *rule,
                list@,
                old(ctx).model(),
                old(host).world(),
                o,
            ) == (TocOut {
                chapters: chapter_models(r.0@),
                next: texts(r.1@),
                ctx: final(ctx).model(),
                w: final(host).world(),
            }),
{
    match mode {
        ParseMode::JsonPath => parse_chapter_list_json(body, base, rule, list, ctx, host),
        ParseMode::XPath => parse_chapter_list_xpath(body, base, rule, list, ctx, host),
        ParseMode::Js => parse_chapter_list_js(body, base, rule, list, ctx, host),
        ParseMode::Regex => {
            let rows = regex_capture_rows(strip_mode_prefix(list).as_str(), body);
            let items = scopes_of_rows(&rows);
            assert(scopes(items@).len() == items.len());
            let chapters = build_chapters(&items, rule, base, ctx, true, host);
            let next = no_texts();
            assert(next_pages(base@, seq![], 0) =~= texts(next@));
            (chapters, next)
        },
        ParseMode::Css => parse_chapter_list_html(body, base, rule, list, ctx, host),
    }
}

/// A page after the script that runs before it is read; the page itself where
/// there is none, or it fails or gives nothing.
pub open spec fn prepared_toc(body: Seq<char>, base: Seq<char>, rule: TocRule, c: CtxV, w: World, o: Oracle) -> (
    Seq<char>,
    World,
) {
    let script = or_blank(opt_text(rule.pre_update_js));
    if trim_of(script).len() == 0 {
        (body, w)
    } else {
        let got = called(page_call(script_of(script), body, base, Some(bindings_of(c)), false), w, o);
        match got.0 {
            Ok(t) => if trim_of(t).len() > 0 {
                (t, got.1)
            } else {
                (body, got.1)
            },
            Err(_) => (body, got.1),
        }
    }
}

pub fn prepare_toc_body<E: ScriptEngine>(
    body: &str,
    base: &str,
    rule: &TocRule,
    ctx: &RuleVariableContext,
    host: &mut Host<E>,
) -> (r: String)
    ensures
        offline(old(host).log(), final(host).log()),
        forall|o: Oracle| #[trigger]
            agrees(final(host).log(), o) ==> prepared_toc(body@, base@, *rule, ctx.model(), old(host).world(), o) == (
                r@,
                final(host).world(),
            ),
{
    broadcast use group_log;

    let script = text_of(&rule.pre_update_js);
    if is_empty_text(trim(script).as_str()) {
        return copy(body);
    }
    match eval_js_with_bindings(strip_js_rule(script).as_str(), body, base, ctx.js_bindings(), host) {
        Ok(t) => if !is_empty_text(trim(t.as_str()).as_str()) {
            t
        } else {
            copy(body)
        },
        Err(_) => copy(body),
    }
}

pub open spec fn opt_value(o: Option<Seq<char>>) -> JsonV {
    match o {
        Some(t) => JsonV::Text(t),
        None => JsonV::Null,
    }
}

/// A chapter as scripts see it, with its variables under `variableMap`.
pub open spec fn chapter_value(ch: ChapterV) -> Seq<(Seq<char>, JsonV)> {
    let fields = seq![
        ("title"@, JsonV::Text(ch.title)),
        ("url"@, JsonV::Text(ch.url)),
        ("index"@, JsonV::Number(integer_text(ch.index as int))),
        ("tag"@, opt_value(ch.tag)),
        ("isVip"@, JsonV::Bool(ch.is_vip)),
        ("isPay"@, JsonV::Bool(ch.is_pay)),
        ("isVolume"@, JsonV::Bool(ch.is_volume)),
    ];
    let all = match ch.variable {
        Some(v) => fields.push(("variable"@, JsonV::Text(v))),
        None => fields,
    };
    all.push(("variableMap"@, JsonV::Object(text_members(variables_of(ch.variable)))))
}

fn opt_ref(o: &Option<String>) -> (r: Option<&str>)
    ensures
        opt_str(r) == opt_text(*o),
{
    match o {
        Some(s) => Some(s.as_str()),
        None => None,
    }
}

pub fn chapter_json(ch: &BookChapter) -> (r: Json)
    ensures
        r.model() == JsonV::Object(chapter_value(ch.model())),
{
    broadcast use lemma_object_model;

    let mut m: Vec<(String, Json)> = Vec::new();
    m.push(("title".to_owned(), Json::Text(ch.title.clone())));
    m.push(("url".to_owned(), Json::Text(ch.url.clone())));
    m.push(("index".to_owned(), Json::Number(json_integer(ch.index as i128))));
    m.push(
        (
            "tag".to_owned(),
            match &ch.tag {
                Some(t) => Json::Text(t.clone()),
                None => Json::Null,
            },
        ),
    );
    m.push(("isVip".to_owned(), Json::Bool(ch.is_vip)));
    m.push(("isPay".to_owned(), Json::Bool(ch.is_pay)));
    m.push(("isVolume".to_owned(), Json::Bool(ch.is_volume)));
    if let Some(v) = &ch.variable {
        m.push(("variable".to_owned(), Json::Text(v.clone())));
    }
    let vars = parse_variable_map(opt_ref(&ch.variable));
    m.push(("variableMap".to_owned(), Json::Object(vars.members())));
    assert(member_models(m@) =~= chapter_value(ch.model()));
    Json::Object(m)
}

/// The values that the script which formats titles sees for a chapter.
pub open spec fn format_bindings(ch: ChapterV, number: int, c: CtxV) -> Seq<(Seq<char>, JsonV)> {
    let own = CtxV { chapter: Some(variables_of(ch.variable)), chapter_title: Some(ch.title), ..c };
    with_pair(
        with_pair(bindings_of(own), "index"@, JsonV::Number(integer_text(number)), 0),
        "chapter"@,
        JsonV::Object(chapter_value(ch)),
        0,
    )
}

/// A chapter with the title that a script gives it; a script that fails or
/// gives nothing leaves the title.
pub open spec fn formatted_chapter(
    ch: ChapterV,
    number: int,
    script: Seq<char>,
    base: Seq<char>,
    c: CtxV,
    w: World,
    o: Oracle,
) -> (ChapterV, World) {
    let got = called(
        page_call(script_of(script), ch.title, base, Some(format_bindings(ch, number, c)), false),
        w,
        o,
    );
    match got.0 {
        Ok(t) => if trim_of(t).len() > 0 {
            (ChapterV { title: t, ..ch }, got.1)
        } else {
            (ch, got.1)
        },
        Err(_) => (ch, got.1),
    }
}

/// The first `n` chapters with the titles that a script gives them.
pub open spec fn formatted_chapters(
    s: Seq<ChapterV>,
    n: int,
    script: Seq<char>,
    base: Seq<char>,
    c: CtxV,
    w: World,
    o: Oracle,
) -> (Seq<ChapterV>, World)
    decreases n,
{
    if n <= 0 {
        (seq![], w)
    } else {
        let before = formatted_chapters(s, n - 1, script, base, c, w, o);
        let got = formatted_chapter(s[n - 1], n, script, base, c, before.1, o);
        (before.0.push(got.0), got.1)
    }
}

pub open spec fn format_titles(
    s: Seq<ChapterV>,
    script: Seq<char>,
    base: Seq<char>,
    c: CtxV,
    w: World,
    o: Oracle,
) -> (Seq<ChapterV>, World) {
    if trim_of(script).len() == 0 {
        (s, w)
    } else {
        formatted_chapters(s, s.len() as int, script, base, c, w, o)
    }
}

pub fn format_chapter<E: ScriptEngine>(
    chapter: BookChapter,
    number: usize,
    script: &str,
    base: &str,
    ctx: &RuleVariableContext,
    host: &mut Host<E>,
) -> (r: BookChapter)
    ensures
        offline(old(host).log(), final(host).log()),
        forall|o: Oracle| #[trigger]
            agrees(final(host).log(), o) ==> formatted_chapter(
                chapter.model(),
                number as int,
                script@,
                base@,
                ctx.model(),
                old(host).world(),
                o,
            ) == (r.model(), final(host).world()),
{
    broadcast use lemma_object_model;

    let mut chapter = chapter;
    let own = ctx.for_chapter(opt_ref(&chapter.variable), chapter.title.as_str());
    let mut bindings = own.js_bindings();
    set_member(&mut bindings, "index".to_owned(), Json::Number(json_integer(number as i128)));
    set_member(&mut bindings, "chapter".to_owned(), chapter_json(&chapter));
    let answer = eval_js_with_bindings(
        strip_js_rule(script).as_str(),
        chapter.title.as_str(),
        base,
        bindings,
        host,
    );
    if let Ok(t) = answer {
        if !is_empty_text(trim(t.as_str()).as_str()) {
            chapter.title = t;
        }
    }
    chapter
}

pub fn apply_toc_format_js<E: ScriptEngine>(
    chapters: Vec<BookChapter>,
    script: &str,
    base: &str,
    ctx: &RuleVariableContext,
    host: &mut Host<E>,
) -> (r: Vec<BookChapter>)
    ensures
        r.len() == chapters.len(),
        offline(old(host).log(), final(host).log()),
        forall|o: Oracle| #[trigger]
            agrees(final(host).log(), o) ==> format_titles(
                chapter_models(chapters@),
                script@,
                base@,
                ctx.model(),
                old(host).world(),
                o,
            ) == (chapter_models(r@), final(host).world()),
{
    broadcast use group_log;

    if is_empty_text(trim(script).as_str()) {
        return chapters;
    }
    let ghost w0 = host.world();
    let mut rest = chapters;
    let ghost given = rest@;
    let ghost all = chapter_models(given);
    let total: usize = rest.len();
    let mut r: Vec<BookChapter> = Vec::new();
    let mut k: usize = 0;
    assert(chapter_models(r@) =~= seq![]);
    while k < total
        invariant
            k <= total,
            total == given.len(),
            r.len() == k,
            all == chapter_models(given),
            rest@ =~= given.subrange(k as int, total as int),
            w0 == old(host).world(),
            offline(old(host).log(), host.log()),
            forall|o: Oracle| #[trigger]
                agrees(host.log(), o) ==> formatted_chapters(all, k as int, script@, base@, ctx.model(), w0, o) == (
                    chapter_models(r@),
                    host.world(),
                ),
        decreases total - k,
    {
        let ghost log1 = host.log();
        let ghost before = chapter_models(r@);
        let ch = rest.remove(0);
        assert(ch == given[k as int]);
        assert(all[k as int] == ch.model());
        let done = format_chapter(ch, k + 1, script, base, ctx, host);
        let ghost x = done.model();
        r.push(done);
        proof {
            lemma_offline_on(old(host).log(), log1, host.log());
            assert(chapter_models(r@) =~= before.push(x));
            assert forall|o: Oracle| #[trigger] agrees(host.log(), o) implies formatted_chapters(
                all,
                k + 1,
                script@,
                base@,
                ctx.model(),
                w0,
                o,
            ) == (chapter_models(r@), host.world()) by {
                assert(agrees(log1, o));
            }
        }
        k = k + 1;
    }
    r
}

/// The chapters numbered anew by their places.
pub open spec fn renumbered(s: Seq<ChapterV>) -> Seq<ChapterV> {
    Seq::new(s.len(), |i: int| ChapterV { index: i as i32, ..s[i] })
}

pub fn renumber(chapters: Vec<BookChapter>, reverse: bool) -> (r: Vec<BookChapter>)
    ensures
        chapter_models(r@) == renumbered(
            if reverse {
                chapter_models(chapters@).reverse()
            } else {
                chapter_models(chapters@)
            },
        ),
{
    let mut rest = chapters;
    let ghost given = rest@;
    let ghost all = if reverse {
        given.reverse()
    } else {
        given
    };
    let total: usize = rest.len();
    let mut r: Vec<BookChapter> = Vec::new();
    let mut k: usize = 0;
    while k < total
        invariant
            k <= total,
            total == given.len(),
            reverse ==> all == given.reverse() && rest@ =~= given.take(total - k),
            !reverse ==> all == given && rest@ =~= given.subrange(k as int, total as int),
            r.len() == k,
            forall|i: int| 0 <= i < k ==> (#[trigger] r@[i]).model() == (ChapterV { index: i as i32, ..all[i].model() }),
        decreases total - k,
    {
        let mut ch = if reverse {
            rest.pop().unwrap()
        } else {
            rest.remove(0)
        };
        assert(ch == all[k as int]);
        #[verifier::truncate]
        let number: i32 = k as i32;
        ch.index = number;
        r.push(ch);
        k = k + 1;
    }
    let ghost want = if reverse {
        chapter_models(given).reverse()
    } else {
        chapter_models(given)
    };
    assert forall|i: int| 0 <= i < total implies chapter_models(r@)[i] == #[trigger] renumbered(want)[i] by {
        assert(r@[i].model() == (ChapterV { index: i as i32, ..all[i].model() }));
        assert(want[i] == all[i].model());
    }
    assert(chapter_models(r@) =~= renumbered(want));
    r
}

pub open spec fn no_toc_rule() -> TocRule {
    TocRule {
        init: None,
        chapter_list: None,
        chapter_name: None,
        chapter_url: None,
        update_time: None,
        is_volume: None,
        is_vip: None,
        is_pay: None,
        next_toc_url: None,
        pre_update_js: None,
        format_js: None,
    }
}

pub open spec fn toc_rule(source: BookSource) -> TocRule {
    match source.rule_toc {
        Some(r) => r,
        None => no_toc_rule(),
    }
}

fn unset_toc_rule() -> (r: TocRule)
    ensures
        r == no_toc_rule(),
{
    TocRule {
        init: None,
        chapter_list: None,
        chapter_name: None,
        chapter_url: None,
        update_time: None,
        is_volume: None,
        is_vip: None,
        is_pay: None,
        next_toc_url: None,
        pre_update_js: None,
        format_js: None,
    }
}

/// The chapters and further pages of a table of contents: read after the
/// script that prepares the page, titles formatted, in the order that the list
/// rule asks for, and numbered by their places.
pub open spec fn source_toc(
    rule: TocRule,
    body: Seq<char>,
    base: Seq<char>,
    c: CtxV,
    w: World,
    o: Oracle,
) -> ((Seq<ChapterV>, Seq<Seq<char>>), World) {
    let l = list_rule_of(or_blank(opt_text(rule.chapter_list)));
    let page = prepared_toc(body, base, rule, c, w, o);
    let toc = toc_by_mode(detected_mode(l.0, page.0), page.0, base, rule, l.0, c, page.1, o);
    let titled = format_titles(toc.chapters, or_blank(opt_text(rule.format_js)), base, toc.ctx, toc.w, o);
    (
        (
            renumbered(
                if l.1 {
                    titled.0.reverse()
                } else {
                    titled.0
                },
            ),
            toc.next,
        ),
        titled.1,
    )
}

#[verifier::rlimit(60)]
pub fn read_toc<E: ScriptEngine>(
    rule: &TocRule,
    body: &str,
    base: &str,
    variable: Option<&str>,
    name: Option<&str>,
    host: &mut Host<E>,
) -> (r: (Vec<BookChapter>, Vec<String>))
    ensures
        offline(old(host).log(), final(host).log()),
        forall|o: Oracle| #[trigger]
            agrees(final(host).log(), o) ==> source_toc(
                *rule,
                body@,
                base@,
                book_context(opt_str(variable), opt_str(name)),
                old(host).world(),
                o,
            ) == ((chapter_models(r.0@), texts(r.1@)), final(host).world()),
{
    broadcast use group_log;

    let ghost w0 = host.world();
    let mut ctx = RuleVariableContext::for_book(variable, name);
    let ghost c0 = ctx.model();
    let (list, reverse) = normalize_list_rule(text_of(&rule.chapter_list));
    let page = prepare_toc_body(body, base, rule, &ctx, host);
    let ghost log1 = host.log();
    let ghost w1 = host.world();
    let mode = detect_mode_of(list.as_str(), page.as_str());
    let (chapters, next) = parse_chapter_list(mode, page.as_str(), base, rule, list.as_str(), &mut ctx, host);
    let ghost log2 = host.log();
    let ghost toc = TocOut {
        chapters: chapter_models(chapters@),
        next: texts(next@),
        ctx: ctx.model(),
        w: host.world(),
    };
    let script = text_of(&rule.format_js);
    let formatted = apply_toc_format_js(chapters, script, base, &ctx, host);
    let ghost titled = formatted@;
    let done = renumber(formatted, reverse);
    proof {
        lemma_offline_on(old(host).log(), log1, log2);
        lemma_offline_on(old(host).log(), log2, host.log());
        assert forall|o: Oracle| #[trigger] agrees(host.log(), o) implies source_toc(
            *rule,
            body@,
            base@,
            c0,
            w0,
            o,
        ) == ((chapter_models(done@), texts(next@)), host.world()) by {
            assert(agrees(log2, o));
            assert(agrees(log1, o));
            assert(prepared_toc(body@, base@, *rule, c0, w0, o) == (page@, w1));
            assert(toc_by_mode(mode, page@, base@, *rule, list@, c0, w1, o) == toc);
            assert(format_titles(toc.chapters, script@, base@, toc.ctx, toc.w, o) == (chapter_models(titled), host.world()));
        }
    }
    (done, next)
}

impl RuleEngine {
    /// Reads a table of contents: its chapters and the addresses of its further pages.
    pub fn chapter_list<E: ScriptEngine>(
        &self,
        source: &BookSource,
        body: &str,
        base_url: &str,
        host: &mut Host<E>,
    ) -> (r: (Vec<BookChapter>, Vec<String>))
        ensures
            offline(old(host).log(), final(host).log()),
            forall|o: Oracle| #[trigger]
                agrees(final(host).log(), o) ==> lib_restored(
                    source_toc(
                        toc_rule(*source),
                        body@,
                        base_url@,
                        book_context(None, None),
                        with_lib(old(host).world(), opt_text(source.js_lib)),
                        o,
                    ),
                    old(host).world(),
                ) == ((chapter_models(r.0@), texts(r.1@)), final(host).world()),
    {
        self.chapter_list_with_variable(source, body, base_url, None, None, host)
    }

    /// Reads the table of contents of a book that has variables and a name.
    pub fn chapter_list_with_variable<E: ScriptEngine>(
        &self,
        source: &BookSource,
        body: &str,
        base_url: &str,
        variable: Option<&str>,
        book_name: Option<&str>,
        host: &mut Host<E>,
    ) -> (r: (Vec<BookChapter>, Vec<String>))
        ensures
            offline(old(host).log(), final(host).log()),
            forall|o: Oracle| #[trigger]
                agrees(final(host).log(), o) ==> lib_restored(
                    source_toc(
                        toc_rule(*source),
                        body@,
                        base_url@,
                        book_context(opt_str(variable), opt_str(book_name)),
                        with_lib(old(host).world(), opt_text(source.js_lib)),
                        o,
                    ),
                    old(host).world(),
                ) == ((chapter_models(r.0@), texts(r.1@)), final(host).world()),
    {
        broadcast use group_log;

        let saved = host.use_lib(lib_of(source));
        let r = match &source.rule_toc {
            Some(rule) => read_toc(rule, body, base_url, variable, book_name, host),
            None => {
                let rule = unset_toc_rule();
                read_toc(&rule, body, base_url, variable, book_name, host)
            },
        };
        let _ = host.swap_lib(saved);
        r
    }
}

/// The context of a chapter's text.
pub open spec fn content_context(
    book_variable: Option<Seq<char>>,
    chapter_variable: Option<Seq<char>>,
    book_name: Option<Seq<char>>,
    chapter_title: Option<Seq<char>>,
) -> CtxV {
    CtxV {
        chapter: match chapter_variable {
            Some(v) => Some(variables_of(Some(v))),
            None => None,
        },
        chapter_title,
        ..book_context(book_variable, book_name)
    }
}

pub fn context_for_content(
    book_variable: Option<&str>,
    chapter_variable: Option<&str>,
    book_name: Option<&str>,
    chapter_title: Option<&str>,
) -> (r: RuleVariableContext)
    ensures
        r.model() == content_context(
            opt_str(book_variable),
            opt_str(chapter_variable),
            opt_str(book_name),
            opt_str(chapter_title),
        ),
{
    let mut ctx = RuleVariableContext::for_book(book_variable, book_name);
    if let Some(v) = chapter_variable {
        ctx.chapter = Some(parse_variable_map(Some(v)));
    }
    ctx.chapter_title = match chapter_title {
        Some(t) => Some(copy(t)),
        None => None,
    };
    ctx
}

/// A page before its content is selected: after the source's replacement, and
/// after the script that a browser would run, if it gives anything.
pub open spec fn prepared_content(rule: ContentRule, body: Seq<char>, base: Seq<char>, c: CtxV, w: World, o: Oracle) -> (
    Seq<char>,
    World,
) {
    let part = or_blank(opt_text(rule.source_regex));
    let page = if trim_of(part).len() > 0 {
        regex_applied(body, part)
    } else {
        body
    };
    let script = or_blank(opt_text(rule.web_js));
    if trim_of(script).len() == 0 {
        (page, w)
    } else {
        let got = called(page_call(without_mode(script), page, base, Some(bindings_of(c)), false), w, o);
        match got.0 {
            Ok(t) => if trim_of(t).len() > 0 {
                (t, got.1)
            } else {
                (page, got.1)
            },
            Err(_) => (page, got.1),
        }
    }
}

pub fn prepare_content<E: ScriptEngine>(
    rule: &ContentRule,
    body: &str,
    base: &str,
    ctx: &RuleVariableContext,
    host: &mut Host<E>,
) -> (r: String)
    ensures
        offline(old(host).log(), final(host).log()),
        forall|o: Oracle| #[trigger]
            agrees(final(host).log(), o) ==> prepared_content(
                *rule,
                body@,
                base@,
                ctx.model(),
                old(host).world(),
                o,
            ) == (r@, final(host).world()),
{
    broadcast use group_log;

    let part = text_of(&rule.source_regex);
    let page = if !is_empty_text(trim(part).as_str()) {
        apply_legado_regex(body, part)
    } else {
        copy(body)
    };
    let script = text_of(&rule.web_js);
    if is_empty_text(trim(script).as_str()) {
        return page;
    }
    match eval_js_with_bindings(strip_mode_prefix(script).as_str(), page.as_str(), base, ctx.js_bindings(), host) {
        Ok(t) => if !is_empty_text(trim(t.as_str()).as_str()) {
            t
        } else {
            page
        },
        Err(_) => page,
    }
}

/// What a content rule selects in a page without running a script.
pub open spec fn selected_content(rule: Seq<char>, page: Seq<char>, w: World, o: Oracle) -> (Seq<char>, World) {
    match detected_mode(rule, page) {
        ParseMode::JsonPath => match json_of(page) {
            Some(v) => (or_blank(first_string_of(v, without_mode(rule))), w),
            None => (seq![], w),
        },
        ParseMode::XPath => {
            let x = document_strings(page, without_mode(rule), false, w, o);
            (or_blank(first_of(x.0)), x.1)
        },
        _ => (or_blank(all_text_of(page, without_mode(rule))), w),
    }
}

pub fn select_content<E>(rule: &str, page: &str, host: &mut Host<E>) -> (r: String)
    ensures
        offline(old(host).log(), final(host).log()),
        forall|o: Oracle| #[trigger]
            agrees(final(host).log(), o) ==> selected_content(rule@, page@, old(host).world(), o) == (
                r@,
                final(host).world(),
            ),
{
    broadcast use group_log;

    let pure = strip_mode_prefix(rule);
    match detect_mode_of(rule, page) {
        ParseMode::JsonPath => match parse_json(page) {
            Some(v) => text_or_blank(jsonpath_first_string(&v, pure.as_str())),
            None => text_or_blank(None),
        },
        ParseMode::XPath => text_or_blank(first_string(select_xpath(page, pure.as_str(), host))),
        _ => {
            let doc = parse_document(page);
            text_or_blank(select_all_text(&doc, pure.as_str()))
        },
    }
}

/// The markup of a chapter: the filled rule itself where its templates leave
/// markup, the value of a script, or what the rule selects; a script that fails
/// is read as a selector.
pub open spec fn raw_content(
    rule: Seq<char>,
    page: Seq<char>,
    base: Seq<char>,
    c: CtxV,
    w: World,
    o: Oracle,
) -> (Seq<char>, World) {
    let filled = interpolated(rule, 0, page, base, c, None, w, o);
    if contains_text(rule, "{{"@) && has_prefix(trim_start_of(filled.0), "<"@) {
        filled
    } else if detected_mode(filled.0, page) == ParseMode::Js {
        let got = called(
            page_call(without_mode(filled.0), page, base, Some(bindings_of(c)), false),
            filled.1,
            o,
        );
        match got.0 {
            Ok(t) => (t, got.1),
            Err(_) => selected_content(filled.0, page, got.1, o),
        }
    } else {
        selected_content(filled.0, page, filled.1, o)
    }
}

pub fn read_raw_content<E: ScriptEngine>(
    rule: &str,
    page: &str,
    base: &str,
    ctx: &RuleVariableContext,
    host: &mut Host<E>,
) -> (r: String)
    ensures
        offline(old(host).log(), final(host).log()),
        forall|o: Oracle| #[trigger]
            agrees(final(host).log(), o) ==> raw_content(rule@, page@, base@, ctx.model(), old(host).world(), o) == (
                r@,
                final(host).world(),
            ),
{
    broadcast use group_log;

    let ghost w0 = host.world();
    let has_templates = contains(rule, "{{");
    let filled = interpolate_templates(rule, page, base, ctx, None, host);
    let ghost log1 = host.log();
    if has_templates && starts_with(trim_start(filled.as_str()).as_str(), "<") {
        return filled;
    }
    if detect_mode_of(filled.as_str(), page) == ParseMode::Js {
        let script = strip_mode_prefix(filled.as_str());
        let answer = eval_js_with_bindings(script.as_str(), page, base, ctx.js_bindings(), host);
        let ghost log2 = host.log();
        let r = match answer {
            Ok(t) => t,
            Err(_) => select_content(filled.as_str(), page, host),
        };
        proof {
            lemma_offline_on(log1, log2, host.log());
            lemma_offline_on(old(host).log(), log1, host.log());
            assert forall|o: Oracle| #[trigger] agrees(host.log(), o) implies raw_content(
                rule@,
                page@,
                base@,
                ctx.model(),
                w0,
                o,
            ) == (r@, host.world()) by {
                assert(agrees(log2, o));
                assert(agrees(log1, o));
            }
        }
        return r;
    }
    let r = select_content(filled.as_str(), page, host);
    proof {
        lemma_offline_on(old(host).log(), log1, host.log());
        assert forall|o: Oracle| #[trigger] agrees(host.log(), o) implies agrees(log1, o) by {}
    }
    r
}

/// A text after the replacement that a content rule ends with.
pub open spec fn content_replaced(
    text: Seq<char>,
    rule: Option<Seq<char>>,
    page: Seq<char>,
    base: Seq<char>,
    c: CtxV,
    w: World,
    o: Oracle,
) -> (Seq<char>, World) {
    match rule {
        Some(r) => {
            let filled = interpolated(r, 0, page, base, c, None, w, o);
            (regex_applied(text, filled.0), filled.1)
        },
        None => (text, w),
    }
}

pub fn apply_content_replacement<E: ScriptEngine>(
    text: String,
    rule: &Option<String>,
    page: &str,
    base: &str,
    ctx: &RuleVariableContext,
    host: &mut Host<E>,
) -> (r: String)
    ensures
        offline(old(host).log(), final(host).log()),
        forall|o: Oracle| #[trigger]
            agrees(final(host).log(), o) ==> content_replaced(
                text@,
                opt_text(*rule),
                page@,
                base@,
                ctx.model(),
                old(host).world(),
                o,
            ) == (r@, final(host).world()),
{
    broadcast use group_log;

    match rule {
        Some(r) => {
            let filled = interpolate_templates(r.as_str(), page, base, ctx, None, host);
            apply_legado_regex(text.as_str(), filled.as_str())
        },
        None => text,
    }
}

/// The text of a chapter: the page prepared, its content selected, the markup
/// turned to text with its images kept, and the replacement applied. Without a
/// content rule it is blank.
pub open spec fn chapter_text(rule: ContentRule, body: Seq<char>, base: Seq<char>, c: CtxV, w: World, o: Oracle) -> (
    Seq<char>,
    World,
) {
    let page = prepared_content(rule, body, base, c, w, o);
    match rule.content {
        Some(r) => {
            let raw = raw_content(r@, page.0, base, c, page.1, o);
            content_replaced(
                text_with_images(raw.0, base),
                opt_text(rule.replace_regex),
                page.0,
                base,
                c,
                raw.1,
                o,
            )
        },
        None => (seq![], page.1),
    }
}

pub fn read_content<E: ScriptEngine>(
    rule: &ContentRule,
    body: &str,
    base: &str,
    ctx: &RuleVariableContext,
    host: &mut Host<E>,
) -> (r: String)
    ensures
        offline(old(host).log(), final(host).log()),
        forall|o: Oracle| #[trigger]
            agrees(final(host).log(), o) ==> chapter_text(*rule, body@, base@, ctx.model(), old(host).world(), o) == (
                r@,
                final(host).world(),
            ),
{
    broadcast use group_log;

    let ghost w0 = host.world();
    let page = prepare_content(rule, body, base, ctx, host);
    let ghost log1 = host.log();
    match &rule.content {
        Some(text_rule) => {
            let raw = read_raw_content(text_rule.as_str(), page.as_str(), base, ctx, host);
            let ghost log2 = host.log();
            let text = format_keep_img(raw.as_str(), base);
            let r = apply_content_replacement(text, &rule.replace_regex, page.as_str(), base, ctx, host);
            proof {
                lemma_offline_on(old(host).log(), log1, log2);
                lemma_offline_on(old(host).log(), log2, host.log());
                assert forall|o: Oracle| #[trigger] agrees(host.log(), o) implies chapter_text(
                    *rule,
                    body@,
                    base@,
                    ctx.model(),
                    w0,
                    o,
                ) == (r@, host.world()) by {
                    assert(agrees(log2, o));
                    assert(agrees(log1, o));
                }
            }
            r
        },
        None => text_or_blank(None),
    }
}

pub open spec fn no_content_rule() -> ContentRule {
    ContentRule { content: None, next_content_url: None, source_regex: None, web_js: None, replace_regex: None }
}

pub open spec fn content_rule(source: BookSource) -> ContentRule {
    match source.rule_content {
        Some(r) => r,
        None => no_content_rule(),
    }
}

fn unset_content_rule() -> (r: ContentRule)
    ensures
        r == no_content_rule(),
{
    ContentRule { content: None, next_content_url: None, source_regex: None, web_js: None, replace_regex: None }
}

/// The address of the page that continues a chapter, if the rule gives one.
pub open spec fn next_content_page(rule: ContentRule, body: Seq<char>, base: Seq<char>, c: CtxV, w: World, o: Oracle) -> (
    Option<Seq<char>>,
    World,
) {
    let r = trim_of(or_blank(opt_text(rule.next_content_url)));
    if r.len() == 0 {
        (None, w)
    } else if detected_mode(r, body) == ParseMode::JsonPath {
        match json_of(body) {
            Some(v) => {
                let got = field(ScopeV::Value(v), r, base, c, w, o);
                (resolved_if_filled(base, got.value), got.w)
            },
            None => (None, w),
        }
    } else {
        let got = field(ScopeV::Page(body), r, base, c, w, o);
        (resolved_if_filled(base, got.value), got.w)
    }
}

pub open spec fn resolved_if_filled(base: Seq<char>, url: Option<Seq<char>>) -> Option<Seq<char>> {
    match url {
        Some(u) => if u.len() > 0 {
            Some(resolved_url(base, u))
        } else {
            None
        },
        None => None,
    }
}

pub fn resolve_filled(base: &str, url: Option<String>) -> (r: Option<String>)
    ensures
        opt_text(r) == resolved_if_filled(base@, opt_text(url)),
{
    match url {
        Some(u) => if !is_empty_text(u.as_str()) {
            Some(resolve_url(base, u.as_str()))
        } else {
            None
        },
        None => None,
    }
}

pub fn read_next_content_url<E: ScriptEngine>(
    rule: &ContentRule,
    body: &str,
    base: &str,
    ctx: RuleVariableContext,
    host: &mut Host<E>,
) -> (r: Option<String>)
    ensures
        offline(old(host).log(), final(host).log()),
        forall|o: Oracle| #[trigger]
            agrees(final(host).log(), o) ==> next_content_page(
                *rule,
                body@,
                base@,
                ctx.model(),
                old(host).world(),
                o,
            ) == (opt_text(r), final(host).world()),
{
    broadcast use group_log;

    let mut ctx = ctx;
    let next_rule = trim(text_of(&rule.next_content_url));
    if is_empty_text(next_rule.as_str()) {
        return None;
    }
    if detect_mode_of(next_rule.as_str(), body) == ParseMode::JsonPath {
        return match parse_json(body) {
            Some(v) => {
                let url = eval_field(&Scope::Value(&v), next_rule.as_str(), base, &mut ctx, host);
                resolve_filled(base, url)
            },
            None => None,
        };
    }
    let doc = parse_document(body);
    let url = eval_field(&Scope::Page(&doc), next_rule.as_str(), base, &mut ctx, host);
    resolve_filled(base, url)
}

impl RuleEngine {
    /// Reads the text of a chapter.
    pub fn content<E: ScriptEngine>(&self, source: &BookSource, body: &str, base_url: &str, host: &mut Host<E>) -> (r:
        String)
        ensures
            offline(old(host).log(), final(host).log()),
            forall|o: Oracle| #[trigger]
                agrees(final(host).log(), o) ==> lib_restored(
                    chapter_text(
                        content_rule(*source),
                        body@,
                        base_url@,
                        content_context(None, None, None, None),
                        with_lib(old(host).world(), opt_text(source.js_lib)),
                        o,
                    ),
                    old(host).world(),
                ) == (r@, final(host).world()),
    {
        self.content_with_variables(source, body, base_url, None, None, None, None, host)
    }

    /// Reads the text of a chapter with the variables of its book and its own.
    pub fn content_with_variables<E: ScriptEngine>(
        &self,
        source: &BookSource,
        body: &str,
        base_url: &str,
        book_variable: Option<&str>,
        chapter_variable: Option<&str>,
        book_name: Option<&str>,
        chapter_title: Option<&str>,
        host: &mut Host<E>,
    ) -> (r: String)
        ensures
            offline(old(host).log(), final(host).log()),
            forall|o: Oracle| #[trigger]
                agrees(final(host).log(), o) ==> lib_restored(
                    chapter_text(
                        content_rule(*source),
                        body@,
                        base_url@,
                        content_context(
                            opt_str(book_variable),
                            opt_str(chapter_variable),
                            opt_str(book_name),
                            opt_str(chapter_title),
                        ),
                        with_lib(old(host).world(), opt_text(source.js_lib)),
                        o,
                    ),
                    old(host).world(),
                ) == (r@, final(host).world()),
    {
        broadcast use group_log;

        let saved = host.use_lib(lib_of(source));
        let ctx = context_for_content(book_variable, chapter_variable, book_name, chapter_title);
        let r = match &source.rule_content {
            Some(rule) => read_content(rule, body, base_url, &ctx, host),
            None => {
                let rule = unset_content_rule();
                read_content(&rule, body, base_url, &ctx, host)
            },
        };
        let _ = host.swap_lib(saved);
        r
    }

    /// The address of the page that continues a chapter, if there is one.
    pub fn next_content_url<E: ScriptEngine>(
        &self,
        source: &BookSource,
        body: &str,
        base_url: &str,
        host: &mut Host<E>,
    ) -> (r: Option<String>)
        ensures
            offline(old(host).log(), final(host).log()),
            forall|o: Oracle| #[trigger]
                agrees(final(host).log(), o) ==> lib_restored(
                    next_content_page(
                        content_rule(*source),
                        body@,
                        base_url@,
                        content_context(None, None, None, None),
                        with_lib(old(host).world(), opt_text(source.js_lib)),
                        o,
                    ),
                    old(host).world(),
                ) == (opt_text(r), final(host).world()),
    {
        self.next_content_url_with_variables(source, body, base_url, None, None, None, None, host)
    }

    /// The address of the page that continues a chapter, with the variables of
    /// its book and its own.
    pub fn next_content_url_with_variables<E: ScriptEngine>(
        &self,
        source: &BookSource,
        body: &str,
        base_url: &str,
        book_variable: Option<&str>,
        chapter_variable: Option<&str>,
        book_name: Option<&str>,
        chapter_title: Option<&str>,
        host: &mut Host<E>,
    ) -> (r: Option<String>)
        ensures
            offline(old(host).log(), final(host).log()),
            forall|o: Oracle| #[trigger]
                agrees(final(host).log(), o) ==> lib_restored(
                    next_content_page(
                        content_rule(*source),
                        body@,
                        base_url@,
                        content_context(
                            opt_str(book_variable),
                            opt_str(chapter_variable),
                            opt_str(book_name),
                            opt_str(chapter_title),
                        ),
                        with_lib(old(host).world(), opt_text(source.js_lib)),
                        o,
                    ),
                    old(host).world(),
                ) == (opt_text(r), final(host).world()),
    {
        broadcast use group_log;

        let saved = host.use_lib(lib_of(source));
        let ctx = context_for_content(book_variable, chapter_variable, book_name, chapter_title);
        let r = match &source.rule_content {
            Some(rule) => read_next_content_url(rule, body, base_url, ctx, host),
            None => {
                let rule = unset_content_rule();
                read_next_content_url(&rule, body, base_url, ctx, host)
            },
        };
        let _ = host.swap_lib(saved);
        r
    }
}

} // verus!
