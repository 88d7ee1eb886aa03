//! Evaluation of the rule of one field: templates, variables, the selection by
//! the rule's mode, the script at its end and the replacement.

use crate::ext::dom::{document_html, is_element, outer_html, outer_html_of, parse_document, repaired_html_of, Document};
use crate::ext::json::{json_of, json_text_of, json_to_text, parse_json, Json, JsonV};
use crate::ext::regexes::opt_texts;
use crate::ext::xml::{string_value, xml_text_of, XPath, XmlTree};
use crate::parser::context::{bindings_of, context_get, context_put, CtxV, RuleVariableContext};
use crate::parser::html::{
    element_value, extract_text, extracted, first_of, first_string, nonempty, select_text, select_text_from_element,
    text_list,
};
use crate::parser::js::{called, eval_js_template_with_bindings, eval_js_with_bindings, page_call};
use crate::parser::script::{
    agrees, asked_xpath, group_log, lemma_offline_on, offline, result_text, Host, Oracle, ScriptEngine, World,
};
use crate::parser::source_rule::{
    capture_rows, capture_rule_values, direct_get_key, extract_js, extract_put_entries, first_capture, first_row_value,
    get_key, js_split, json_field, mode_of, pick_json_field, put_models, puts_of, regex_capture_rows,
    replacement_applied, row_value, script_of, split_replacement, strip_js_rule, without_puts, ParseMode, PutEntry,
    SourceRule,
};
use crate::parser::xpath::{document_strings, result_strings, select_xpath, write_result};
use crate::util::chars::{
    chars_at, chars_find, chars_of, contains, contains_text, copy, find_from, has_prefix, has_prefix_ignore_case,
    is_empty_text, occurs_at, opt_text, same, starts_with, starts_with_ignore_case, string_range, strip_prefix,
    strip_prefix_ascii_case, strip_prefix_ignore_case_of, strip_prefix_of, strip_suffix, strip_suffix_of, texts, trim,
    trim_of, trim_start_char, trim_start_of_char,
};
use vstd::prelude::*;
use vstd::string::*;

verus! {

/// The text, blank where there is none.
pub open spec fn or_blank(o: Option<Seq<char>>) -> Seq<char> {
    match o {
        Some(t) => t,
        None => seq![],
    }
}

pub fn text_or_blank(o: Option<String>) -> (r: String)
    ensures
        r@ == or_blank(opt_text(o)),
{
    match o {
        Some(t) => t,
        None => {
            let r = String::new();
            assert(r@ =~= seq![]);
            r
        },
    }
}

pub open spec fn ok_or_blank(r: Result<Seq<char>, Seq<char>>) -> Seq<char> {
    match r {
        Ok(t) => t,
        Err(_) => seq![],
    }
}

pub fn result_or_blank(o: Result<String, String>) -> (r: String)
    ensures
        r@ == ok_or_blank(result_text(o)),
{
    match o {
        Ok(t) => t,
        Err(_) => {
            let r = String::new();
            assert(r@ =~= seq![]);
            r
        },
    }
}

/// The value that a template's JSON path reads: the value at hand, else the
/// input as JSON.
pub open spec fn template_json(json: Option<JsonV>, input: Seq<char>, path: Seq<char>) -> Seq<char> {
    match json {
        Some(v) => or_blank(json_field(v, path)),
        None => match json_of(input) {
            Some(v) => or_blank(json_field(v, path)),
            None => seq![],
        },
    }
}

pub fn pick_template_json(json: Option<&Json>, input: &str, path: &str) -> (r: String)
    ensures
        r@ == template_json(opt_json_ref(json), input@, path@),
{
    match json {
        Some(v) => text_or_blank(pick_json_field(v, path)),
        None => match parse_json(input) {
            Some(v) => text_or_blank(pick_json_field(&v, path)),
            None => text_or_blank(None),
        },
    }
}

pub open spec fn opt_json_ref(o: Option<&Json>) -> Option<JsonV> {
    match o {
        Some(v) => Some(v.model()),
        None => None,
    }
}

/// The key of a template that reads a variable, `@get:{key}`.
pub open spec fn template_key(expr: Seq<char>) -> Option<Seq<char>> {
    match strip_prefix_of(expr, "@get:{"@) {
        Some(x) => match strip_suffix_of(x, "}"@) {
            Some(k) => Some(trim_of(k)),
            None => None,
        },
        None => None,
    }
}

/// The value of the expression in `{{..}}`: a variable of that name, else a
/// selection by the mark that it starts with, else a script.
pub open spec fn template_value(
    expr: Seq<char>,
    input: Seq<char>,
    base: Seq<char>,
    c: CtxV,
    json: Option<JsonV>,
    w: World,
    o: Oracle,
) -> (Seq<char>, World) {
    if expr.len() == 0 {
        (seq![], w)
    } else if template_key(expr) is Some {
        let got = context_get(c, template_key(expr)->0, w, o);
        (or_blank(got.0), got.1)
    } else {
        let got = context_get(c, expr, w, o);
        if got.0 is Some {
            (got.0->0, got.1)
        } else {
            template_rest(expr, input, base, c, json, got.1, o)
        }
    }
}

pub open spec fn after_mark(expr: Seq<char>, mark: Seq<char>) -> Seq<char> {
    match strip_prefix_ignore_case_of(expr, mark) {
        Some(x) => x,
        None => expr,
    }
}

pub fn strip_mark(expr: &str, mark: &str) -> (r: String)
    ensures
        r@ == after_mark(expr@, mark@),
{
    match strip_prefix_ascii_case(expr, mark) {
        Some(x) => x,
        None => copy(expr),
    }
}

pub open spec fn template_rest(
    expr: Seq<char>,
    input: Seq<char>,
    base: Seq<char>,
    c: CtxV,
    json: Option<JsonV>,
    w: World,
    o: Oracle,
) -> (Seq<char>, World) {
    if has_prefix(expr, "$."@) || has_prefix(expr, "$["@) {
        (template_json(json, input, expr), w)
    } else if has_prefix(expr, "//"@) || has_prefix_ignore_case(expr, "@xpath:"@) {
        let x = document_strings(input, after_mark(expr, "@xpath:"@), false, w, o);
        (or_blank(first_of(x.0)), x.1)
    } else if has_prefix_ignore_case(expr, "@css:"@) {
        (or_blank(first_of(text_list(input, after_mark(expr, "@css:"@)))), w)
    } else if has_prefix_ignore_case(expr, "@json:"@) {
        (template_json(json, input, after_mark(expr, "@json:"@)), w)
    } else if has_prefix_ignore_case(expr, "@js:"@) {
        let got = called(page_call(after_mark(expr, "@js:"@), input, base, Some(bindings_of(c)), true), w, o);
        (ok_or_blank(got.0), got.1)
    } else if has_prefix_ignore_case(expr, "@regex:"@) {
        (first_row_value(capture_rows(after_mark(expr, "@regex:"@), input)), w)
    } else if has_prefix(expr, "@"@) {
        let got = context_get(c, trim_start_char(expr, '@'), w, o);
        (or_blank(got.0), got.1)
    } else {
        let got = called(page_call(expr, input, base, Some(bindings_of(c)), true), w, o);
        (ok_or_blank(got.0), got.1)
    }
}

pub fn evaluate_marked_expression<E: ScriptEngine>(
    expr: &str,
    input: &str,
    base: &str,
    ctx: &RuleVariableContext,
    json: Option<&Json>,
    host: &mut Host<E>,
) -> (r: String)
    ensures
        offline(old(host).log(), final(host).log()),
        forall|o: Oracle| #[trigger]
            agrees(final(host).log(), o) ==> template_rest(
                expr@,
                input@,
                base@,
                ctx.model(),
                opt_json_ref(json),
                old(host).world(),
                o,
            ) == (r@, final(host).world()),
{
    broadcast use group_log;

    if starts_with(expr, "$.") || starts_with(expr, "$[") {
        return pick_template_json(json, input, expr);
    }
    if starts_with(expr, "//") || starts_with_ignore_case(expr, "@xpath:") {
        return text_or_blank(first_string(select_xpath(input, strip_mark(expr, "@xpath:").as_str(), host)));
    }
    if starts_with_ignore_case(expr, "@css:") {
        let doc = parse_document(input);
        return text_or_blank(select_text(&doc, strip_mark(expr, "@css:").as_str()));
    }
    if starts_with_ignore_case(expr, "@json:") {
        return pick_template_json(json, input, strip_mark(expr, "@json:").as_str());
    }
    if starts_with_ignore_case(expr, "@js:") {
        let script = strip_mark(expr, "@js:");
        return result_or_blank(
            eval_js_template_with_bindings(script.as_str(), input, base, ctx.js_bindings(), host),
        );
    }
    if starts_with_ignore_case(expr, "@regex:") {
        return first_capture(&regex_capture_rows(strip_mark(expr, "@regex:").as_str(), input));
    }
    if starts_with(expr, "@") {
        return text_or_blank(ctx.get(trim_start_of_char(expr, '@').as_str(), host));
    }
    result_or_blank(eval_js_template_with_bindings(expr, input, base, ctx.js_bindings(), host))
}

/// Evaluates the expression of a template.
pub fn evaluate_template_expression<E: ScriptEngine>(
    expr: &str,
    input: &str,
    base: &str,
    ctx: &RuleVariableContext,
    json: Option<&Json>,
    host: &mut Host<E>,
) -> (r: String)
    ensures
        offline(old(host).log(), final(host).log()),
        forall|o: Oracle| #[trigger]
            agrees(final(host).log(), o) ==> template_value(
                expr@,
                input@,
                base@,
                ctx.model(),
                opt_json_ref(json),
                old(host).world(),
                o,
            ) == (r@, final(host).world()),
{
    broadcast use group_log;

    if is_empty_text(expr) {
        let r = String::new();
        assert(r@ =~= seq![]);
        return r;
    }
    if let Some(x) = strip_prefix(expr, "@get:{") {
        if let Some(k) = strip_suffix(x.as_str(), "}") {
            return text_or_blank(ctx.get(trim(k.as_str()).as_str(), host));
        }
    }
    if let Some(v) = ctx.get(expr, host) {
        return v;
    }
    evaluate_marked_expression(expr, input, base, ctx, json, host)
}

/// The position of the `}}` that closes a template, from position `i` on with
/// `depth` braces open.
pub open spec fn template_close(s: Seq<char>, i: int, depth: int) -> Option<int>
    decreases s.len() - i,
{
    if i < 0 || i >= s.len() {
        None
    } else if s[i] == '{' {
        template_close(s, i + 1, depth + 1)
    } else if s[i] == '}' && depth > 0 {
        template_close(s, i + 1, depth - 1)
    } else if s[i] == '}' && i + 1 < s.len() && s[i + 1] == '}' {
        Some(i)
    } else {
        template_close(s, i + 1, depth)
    }
}

pub fn find_template_close(v: &Vec<char>, from: usize) -> (r: Option<usize>)
    requires
        from <= v.len(),
    ensures
        match r {
            Some(k) => from <= k && k + 2 <= v.len() && template_close(v@, from as int, 0) == Some(k as int),
            None => template_close(v@, from as int, 0) is None,
        },
{
    let mut depth: usize = 0;
    let mut i: usize = from;
    while i < v.len()
        invariant
            from <= i <= v.len(),
            depth <= i,
            template_close(v@, from as int, 0) == template_close(v@, i as int, depth as int),
        decreases v.len() - i,
    {
        if v[i] == '{' {
            depth = depth + 1;
        } else if v[i] == '}' {
            if depth > 0 {
                depth = depth - 1;
            } else if i + 1 < v.len() && v[i + 1] == '}' {
                return Some(i);
            }
        }
        i = i + 1;
    }
    None
}

/// `rule[i..]` with its templates `{{..}}` and its variables `@get:{..}`
/// replaced, and the world after that.
pub open spec fn interpolated(
    rule: Seq<char>,
    i: int,
    input: Seq<char>,
    base: Seq<char>,
    c: CtxV,
    json: Option<JsonV>,
    w: World,
    o: Oracle,
) -> (Seq<char>, World)
    decreases rule.len() - i + 2,
{
    if i < 0 || i >= rule.len() {
        (seq![], w)
    } else if template_at(rule, i) is Some && i < template_at(rule, i)->0 < rule.len() {
        let e = template_at(rule, i)->0;
        let v = template_value(trim_of(rule.subrange(i + 2, e)), input, base, c, json, w, o);
        let rest = interpolated(rule, e + 2, input, base, c, json, v.1, o);
        (v.0 + rest.0, rest.1)
    } else if variable_at(rule, i) is Some && i < variable_at(rule, i)->0 < rule.len() {
        let e = variable_at(rule, i)->0;
        let v = context_get(c, trim_of(rule.subrange(i + 6, e)), w, o);
        let rest = interpolated(rule, e + 1, input, base, c, json, v.1, o);
        (or_blank(v.0) + rest.0, rest.1)
    } else {
        let rest = interpolated(rule, i + 1, input, base, c, json, w, o);
        (seq![rule[i]] + rest.0, rest.1)
    }
}

/// The end of the template that starts at `i`.
pub open spec fn template_at(rule: Seq<char>, i: int) -> Option<int> {
    if occurs_at(rule, "{{"@, i) {
        template_close(rule, i + 2, 0)
    } else {
        None
    }
}

/// The end of the variable that starts at `i`.
pub open spec fn variable_at(rule: Seq<char>, i: int) -> Option<int> {
    if occurs_at(rule, "@get:{"@, i) {
        find_from(rule, "}"@, i + 6)
    } else {
        None
    }
}

/// Replaces the templates and variables of a rule.
pub fn interpolate_templates<E: ScriptEngine>(
    rule: &str,
    input: &str,
    base: &str,
    ctx: &RuleVariableContext,
    json: Option<&Json>,
    host: &mut Host<E>,
) -> (r: String)
    ensures
        offline(old(host).log(), final(host).log()),
        forall|o: Oracle| #[trigger]
            agrees(final(host).log(), o) ==> interpolated(
                rule@,
                0,
                input@,
                base@,
                ctx.model(),
                opt_json_ref(json),
                old(host).world(),
                o,
            ) == (r@, final(host).world()),
{
    broadcast use group_log;

    let v = chars_of(rule);
    let open = chars_of("{{");
    let get = chars_of("@get:{");
    let close = chars_of("}");
    proof {
        reveal_strlit("{{");
        reveal_strlit("@get:{");
        reveal_strlit("}");
    }
    let ghost w0 = host.world();
    let ghost c = ctx.model();
    let ghost j = opt_json_ref(json);
    let mut out = String::new();
    let mut i: usize = 0;
    assert forall|o: Oracle| #[trigger] agrees(host.log(), o) implies interpolated(rule@, 0, input@, base@, c, j, w0, o)
        == joined_text(out@, interpolated(rule@, 0, input@, base@, c, j, host.world(), o)) by {
        assert(out@ + interpolated(rule@, 0, input@, base@, c, j, host.world(), o).0 =~= interpolated(
            rule@,
            0,
            input@,
            base@,
            c,
            j,
            host.world(),
            o,
        ).0);
    }
    while i < v.len()
        invariant
            v@ == rule@,
            open@ == "{{"@,
            open.len() == 2,
            get@ == "@get:{"@,
            get.len() == 6,
            close@ == "}"@,
            close.len() == 1,
            i <= v.len(),
            c == ctx.model(),
            j == opt_json_ref(json),
            w0 == old(host).world(),
            offline(old(host).log(), host.log()),
            forall|o: Oracle| #[trigger]
                agrees(host.log(), o) ==> interpolated(rule@, 0, input@, base@, c, j, w0, o) == joined_text(
                    out@,
                    interpolated(rule@, i as int, input@, base@, c, j, host.world(), o),
                ),
        decreases v.len() - i,
    {
        let ghost before = out@;
        let ghost log1 = host.log();
        let ghost w1 = host.world();
        let mut end: Option<usize> = None;
        if chars_at(&v, &open, i) {
            end = find_template_close(&v, i + 2);
        }
        if let Some(e) = end {
            let expr = trim(string_range(&v, i + 2, e).as_str());
            let t = evaluate_template_expression(expr.as_str(), input, base, ctx, json, host);
            out.append(t.as_str());
            proof {
                lemma_offline_on(old(host).log(), log1, host.log());
                assert forall|o: Oracle| #[trigger] agrees(host.log(), o) implies interpolated(
                    rule@,
                    0,
                    input@,
                    base@,
                    c,
                    j,
                    w0,
                    o,
                ) == joined_text(out@, interpolated(rule@, e + 2, input@, base@, c, j, host.world(), o)) by {
                    assert(agrees(log1, o));
                    let rest = interpolated(rule@, e + 2, input@, base@, c, j, host.world(), o);
                    assert(template_value(expr@, input@, base@, c, j, w1, o) == (t@, host.world()));
                    assert(interpolated(rule@, i as int, input@, base@, c, j, w1, o) == (t@ + rest.0, rest.1));
                    assert(before + (t@ + rest.0) =~= out@ + rest.0);
                }
            }
            i = e + 2;
        } else {
            let mut end: Option<usize> = None;
            if chars_at(&v, &get, i) {
                end = chars_find(&v, &close, i + 6);
            }
            if let Some(e) = end {
                let key = trim(string_range(&v, i + 6, e).as_str());
                let t = text_or_blank(ctx.get(key.as_str(), host));
                out.append(t.as_str());
                proof {
                    lemma_offline_on(old(host).log(), log1, host.log());
                    assert forall|o: Oracle| #[trigger] agrees(host.log(), o) implies interpolated(
                        rule@,
                        0,
                        input@,
                        base@,
                        c,
                        j,
                        w0,
                        o,
                    ) == joined_text(out@, interpolated(rule@, e + 1, input@, base@, c, j, host.world(), o)) by {
                        assert(agrees(log1, o));
                        let rest = interpolated(rule@, e + 1, input@, base@, c, j, host.world(), o);
                        assert(interpolated(rule@, i as int, input@, base@, c, j, w1, o) == (t@ + rest.0, rest.1));
                        assert(before + (t@ + rest.0) =~= out@ + rest.0);
                    }
                }
                i = e + 1;
            } else {
                out.push(v[i]);
                proof {
                    assert forall|o: Oracle| #[trigger] agrees(host.log(), o) implies interpolated(
                        rule@,
                        0,
                        input@,
                        base@,
                        c,
                        j,
                        w0,
                        o,
                    ) == joined_text(out@, interpolated(rule@, i + 1, input@, base@, c, j, host.world(), o)) by {
                        let rest = interpolated(rule@, i + 1, input@, base@, c, j, host.world(), o);
                        assert(interpolated(rule@, i as int, input@, base@, c, j, w1, o) == (
                            seq![rule@[i as int]] + rest.0,
                            rest.1,
                        ));
                        assert(before + (seq![rule@[i as int]] + rest.0) =~= out@ + rest.0);
                    }
                }
                i = i + 1;
            }
        }
    }
    assert forall|o: Oracle| #[trigger] agrees(host.log(), o) implies interpolated(rule@, 0, input@, base@, c, j, w0, o)
        == (out@, host.world()) by {
        assert(out@ + Seq::<char>::empty() =~= out@);
    }
    out
}

pub open spec fn joined_text(head: Seq<char>, rest: (Seq<char>, World)) -> (Seq<char>, World) {
    (head + rest.0, rest.1)
}

/// What a rule is applied to.
pub enum ScopeV {
    /// An element of an HTML document.
    Element(Seq<char>, int),
    /// A whole HTML document.
    Page(Seq<char>),
    /// A node of an XML document.
    Node(Seq<char>, int),
    /// A JSON value.
    Value(JsonV),
    /// The groups of a match.
    Row(Seq<Option<Seq<char>>>),
}

/// What a rule is applied to; see [`ScopeV`].
pub enum Scope<'a, 'd> {
    Element(&'a Document, usize),
    Page(&'a Document),
    Node(&'a XmlTree<'d>, usize),
    Value(&'a Json),
    Row(&'a Vec<Option<String>>),
}

impl<'a, 'd> Scope<'a, 'd> {
    pub open spec fn model(self) -> ScopeV {
        match self {
            Scope::Element(doc, i) => ScopeV::Element(doc.source(), i as int),
            Scope::Page(doc) => ScopeV::Page(doc.source()),
            Scope::Node(tree, i) => ScopeV::Node(tree.source(), i as int),
            Scope::Value(v) => ScopeV::Value(v.model()),
            Scope::Row(row) => ScopeV::Row(opt_texts(row@)),
        }
    }

    pub open spec fn wf(self) -> bool {
        match self {
            Scope::Element(doc, i) => doc.wf() && is_element(doc.dom(), i as int),
            Scope::Page(doc) => doc.wf(),
            Scope::Node(tree, i) => tree.wf() && i < tree.dom().len(),
            _ => true,
        }
    }
}

/// The text that templates, scripts and regular expressions see of a scope.
pub open spec fn scope_input(s: ScopeV) -> Seq<char> {
    match s {
        ScopeV::Element(html, i) => or_blank(extracted(html, i, "textNodes"@)),
        ScopeV::Page(html) => repaired_html_of(html),
        ScopeV::Node(xml, i) => xml_text_of(xml, i),
        ScopeV::Value(v) => json_text_of(v),
        ScopeV::Row(_) => seq![],
    }
}

pub open spec fn scope_json(s: ScopeV) -> Option<JsonV> {
    match s {
        ScopeV::Value(v) => Some(v),
        _ => None,
    }
}

/// The mode of a rule that has no mark.
pub open spec fn scope_mode(s: ScopeV) -> ParseMode {
    match s {
        ScopeV::Node(..) => ParseMode::XPath,
        ScopeV::Value(_) => ParseMode::JsonPath,
        _ => ParseMode::Css,
    }
}

pub fn input_of(s: &Scope) -> (r: String)
    requires
        s.wf(),
    ensures
        r@ == scope_input(s.model()),
{
    match s {
        Scope::Element(doc, i) => text_or_blank(extract_text(doc, *i, "textNodes")),
        Scope::Page(doc) => document_html(doc),
        Scope::Node(tree, i) => string_value(tree, *i),
        Scope::Value(v) => json_to_text(v),
        Scope::Row(_) => text_or_blank(None),
    }
}

pub fn fallback_of(s: &Scope) -> (r: ParseMode)
    ensures
        r == scope_mode(s.model()),
{
    match s {
        Scope::Node(..) => ParseMode::XPath,
        Scope::Value(_) => ParseMode::JsonPath,
        _ => ParseMode::Css,
    }
}

/// Whether a JSON rule is an address or a list and not a path.
pub open spec fn is_literal(rule: Seq<char>) -> bool {
    contains_text(rule, "/"@) || contains_text(rule, "?"@) || contains_text(rule, "&"@) || contains_text(rule, "="@)
        || contains_text(rule, ","@)
}

/// The strings that a plain XPath expression gives for a node; a blank one
/// gives none.
pub open spec fn plain_strings(xml: Seq<char>, node: int, xpath: Seq<char>, w: World, o: Oracle) -> (
    Seq<Seq<char>>,
    World,
) {
    let x = trim_of(xpath);
    if x.len() == 0 {
        (seq![], w)
    } else {
        let y = asked_xpath(xml, node, x, false, w, o);
        (result_strings(xml, y.0, false, false), y.1)
    }
}

/// The strings that a plain XPath expression gives for a node.
pub fn plain_xpath_strings<E>(tree: &XmlTree<'_>, node: usize, xpath: &str, host: &mut Host<E>) -> (r: Vec<String>)
    requires
        tree.wf(),
        node < tree.dom().len(),
    ensures
        offline(old(host).log(), final(host).log()),
        forall|o: Oracle| #[trigger]
            agrees(final(host).log(), o) ==> plain_strings(tree.source(), node as int, xpath@, old(host).world(), o) == (
                texts(r@),
                final(host).world(),
            ),
{
    broadcast use group_log;

    let x = trim(xpath);
    if is_empty_text(x.as_str()) {
        let r: Vec<String> = Vec::new();
        assert(texts(r@) =~= seq![]);
        return r;
    }
    let found = host.select(tree, node, x.as_str(), false);
    write_result(tree, found, false, false)
}

/// What a rule selects in a scope by its mode, and the world after that.
pub open spec fn mode_text(
    s: ScopeV,
    mode: ParseMode,
    pure: Seq<char>,
    base: Seq<char>,
    c: CtxV,
    w: World,
    o: Oracle,
) -> (Seq<char>, World) {
    let input = scope_input(s);
    match mode {
        ParseMode::Regex => (first_row_value(capture_rows(trim_of(trim_start_char(pure, ':')), input)), w),
        ParseMode::Js => {
            let got = called(page_call(script_of(pure), input, base, Some(bindings_of(c)), false), w, o);
            (ok_or_blank(got.0), got.1)
        },
        ParseMode::Css => match s {
            ScopeV::Element(html, i) => if pure.len() == 0 {
                (seq![], w)
            } else {
                (or_blank(element_value(html, i, pure)), w)
            },
            ScopeV::Page(html) => (or_blank(first_of(text_list(html, pure))), w),
            _ => (or_blank(first_of(text_list(input, pure))), w),
        },
        ParseMode::XPath => match s {
            ScopeV::Element(html, i) => {
                let x = document_strings(outer_html_of(html, i), pure, false, w, o);
                (or_blank(first_of(x.0)), x.1)
            },
            ScopeV::Node(xml, i) => if trim_of(pure).len() == 0 {
                (input, w)
            } else {
                let x = plain_strings(xml, i, pure, w, o);
                (or_blank(first_of(x.0)), x.1)
            },
            _ => {
                let x = document_strings(input, pure, false, w, o);
                (or_blank(first_of(x.0)), x.1)
            },
        },
        ParseMode::JsonPath => match s {
            ScopeV::Value(v) => if pure.len() == 0 {
                (seq![], w)
            } else if is_literal(pure) {
                (pure, w)
            } else {
                (or_blank(json_field(v, pure)), w)
            },
            _ => (seq![], w),
        },
    }
}

fn select_by_mode<E: ScriptEngine>(
    s: &Scope,
    mode: ParseMode,
    pure: &str,
    input: &str,
    base: &str,
    ctx: &RuleVariableContext,
    host: &mut Host<E>,
) -> (r: String)
    requires
        s.wf(),
        input@ == scope_input(s.model()),
    ensures
        offline(old(host).log(), final(host).log()),
        forall|o: Oracle| #[trigger]
            agrees(final(host).log(), o) ==> mode_text(
                s.model(),
                mode,
                pure@,
                base@,
                ctx.model(),
                old(host).world(),
                o,
            ) == (r@, final(host).world()),
{
    broadcast use group_log;

    match mode {
        ParseMode::Regex => first_capture(
            &regex_capture_rows(trim(trim_start_of_char(pure, ':').as_str()).as_str(), input),
        ),
        ParseMode::Js => result_or_blank(
            eval_js_with_bindings(strip_js_rule(pure).as_str(), input, base, ctx.js_bindings(), host),
        ),
        ParseMode::Css => match s {
            Scope::Element(doc, i) => if is_empty_text(pure) {
                text_or_blank(None)
            } else {
                text_or_blank(select_text_from_element(doc, *i, pure))
            },
            Scope::Page(doc) => text_or_blank(select_text(doc, pure)),
            _ => {
                let doc = parse_document(input);
                text_or_blank(select_text(&doc, pure))
            },
        },
        ParseMode::XPath => match s {
            Scope::Element(doc, i) => text_or_blank(
                first_string(select_xpath(outer_html(doc, *i).as_str(), pure, host)),
            ),
            Scope::Node(tree, i) => if is_empty_text(trim(pure).as_str()) {
                copy(input)
            } else {
                text_or_blank(first_string(plain_xpath_strings(tree, *i, pure, host)))
            },
            _ => text_or_blank(first_string(select_xpath(input, pure, host))),
        },
        ParseMode::JsonPath => match s {
            Scope::Value(v) => if is_empty_text(pure) {
                text_or_blank(None)
            } else if contains(pure, "/") || contains(pure, "?") || contains(pure, "&") || contains(pure, "=") || contains(
                pure,
                ",",
            ) {
                copy(pure)
            } else {
                text_or_blank(pick_json_field(v, pure))
            },
            _ => text_or_blank(None),
        },
    }
}

/// Whether a rule that selects nothing stands for itself once its templates
/// are filled.
pub open spec fn stands_for_itself(s: ScopeV, mode: ParseMode) -> bool {
    match s {
        ScopeV::Element(..) => mode == ParseMode::Css,
        ScopeV::Page(_) => mode == ParseMode::Css,
        ScopeV::Node(..) => true,
        _ => false,
    }
}

pub fn may_stand_for_itself(s: &Scope, mode: ParseMode) -> (r: bool)
    ensures
        r == stands_for_itself(s.model(), mode),
{
    match s {
        Scope::Element(..) => mode == ParseMode::Css,
        Scope::Page(_) => mode == ParseMode::Css,
        Scope::Node(..) => true,
        _ => false,
    }
}

/// The text after the script at the end of a rule; a script that fails leaves it.
pub open spec fn scripted(
    text: Seq<char>,
    js: Option<Seq<char>>,
    base: Seq<char>,
    c: CtxV,
    w: World,
    o: Oracle,
) -> (Seq<char>, World) {
    match js {
        Some(script) => {
            let got = called(page_call(script, text, base, Some(bindings_of(c)), false), w, o);
            match got.0 {
                Ok(t) => (t, got.1),
                Err(_) => (text, got.1),
            }
        },
        None => (text, w),
    }
}

/// The value of a rule, whose variables to set are taken out, in a scope.
pub open spec fn plain_field(s: ScopeV, rule: Seq<char>, base: Seq<char>, c: CtxV, w: World, o: Oracle) -> (
    Option<Seq<char>>,
    World,
) {
    let m = mode_of(rule, scope_mode(s), s is Value);
    let expanded = interpolated(m.1, 0, scope_input(s), base, c, scope_json(s), w, o);
    let parts = split_replacement(expanded.0);
    let split = js_split(parts.0);
    let selected = mode_text(s, m.0, split.0, base, c, expanded.1, o);
    let text = if selected.0.len() == 0 && expanded.0 != m.1 && split.0.len() > 0 && stands_for_itself(s, m.0) {
        split.0
    } else {
        selected.0
    };
    let done = scripted(text, split.1, base, c, selected.1, o);
    (nonempty(replacement_applied(done.0, parts.1)), done.1)
}

fn eval_compiled<E: ScriptEngine>(
    s: &Scope,
    compiled: SourceRule,
    base: &str,
    ctx: &RuleVariableContext,
    host: &mut Host<E>,
    Ghost(rule): Ghost<Seq<char>>,
) -> (r: Option<String>)
    requires
        s.wf(),
        (compiled.mode, compiled.rule@) == mode_of(rule, scope_mode(s.model()), s.model() is Value),
    ensures
        offline(old(host).log(), final(host).log()),
        forall|o: Oracle| #[trigger]
            agrees(final(host).log(), o) ==> plain_field(s.model(), rule, base@, ctx.model(), old(host).world(), o) == (
                opt_text(r),
                final(host).world(),
            ),
{
    broadcast use group_log;

    let mut compiled = compiled;
    let ghost w0 = host.world();
    let input = input_of(s);
    let json: Option<&Json> = match s {
        Scope::Value(v) => Some(*v),
        _ => None,
    };
    let expanded = interpolate_templates(compiled.rule.as_str(), input.as_str(), base, ctx, json, host);
    let ghost log1 = host.log();
    let ghost w1 = host.world();
    let had_templates = !same(expanded.as_str(), compiled.rule.as_str());
    compiled.make_up_rule(expanded.as_str());
    let (pure, js) = extract_js(compiled.rule.as_str());
    let mut text = select_by_mode(s, compiled.mode, pure.as_str(), input.as_str(), base, ctx, host);
    let ghost log2 = host.log();
    let ghost w2 = host.world();
    let ghost selected = text@;
    if is_empty_text(text.as_str()) && had_templates && !is_empty_text(pure.as_str()) && may_stand_for_itself(s, compiled.mode) {
        text = pure.clone();
    }
    let ghost before = text@;
    if let Some(script) = &js {
        if let Ok(t) = eval_js_with_bindings(script.as_str(), text.as_str(), base, ctx.js_bindings(), host) {
            text = t;
        }
    }
    let text2 = compiled.apply_replacement(text.as_str());
    proof {
        lemma_offline_on(old(host).log(), log1, log2);
        lemma_offline_on(old(host).log(), log2, host.log());
        assert forall|o: Oracle| #[trigger] agrees(host.log(), o) implies plain_field(
            s.model(),
            rule,
            base@,
            ctx.model(),
            w0,
            o,
        ) == (nonempty(text2@), host.world()) by {
            assert(agrees(log2, o));
            assert(agrees(log1, o));
            assert(scripted(before, opt_text(js), base@, ctx.model(), w2, o) == (text@, host.world()));
        }
    }
    if is_empty_text(text2.as_str()) {
        None
    } else {
        Some(text2)
    }
}

/// The value of a rule that sets no variables.
pub open spec fn simple_field(s: ScopeV, rule: Seq<char>, base: Seq<char>, c: CtxV, w: World, o: Oracle) -> (
    Option<Seq<char>>,
    World,
) {
    match s {
        ScopeV::Row(row) => (row_value(rule, row), w),
        _ => match get_key(rule) {
            Some(key) => context_get(c, key, w, o),
            None => plain_field(s, rule, base, c, w, o),
        },
    }
}

pub fn eval_simple<E: ScriptEngine>(s: &Scope, rule: &str, base: &str, ctx: &RuleVariableContext, host: &mut Host<E>) -> (r:
    Option<String>)
    requires
        s.wf(),
    ensures
        offline(old(host).log(), final(host).log()),
        forall|o: Oracle| #[trigger]
            agrees(final(host).log(), o) ==> simple_field(
                s.model(),
                rule@,
                base@,
                ctx.model(),
                old(host).world(),
                o,
            ) == (opt_text(r), final(host).world()),
{
    broadcast use group_log;

    if let Scope::Row(row) = s {
        return capture_rule_values(rule, row);
    }
    if let Some(key) = direct_get_key(rule) {
        return ctx.get(key.as_str(), host);
    }
    let json = match s {
        Scope::Value(_) => true,
        _ => false,
    };
    let (mode, text) = crate::parser::source_rule::classify_rule_mode(rule, fallback_of(s), json);
    let compiled = SourceRule { mode, rule: text, replacement_rule: None, put_entries: Vec::new() };
    eval_compiled(s, compiled, base, ctx, host, Ghost(rule@))
}

/// What the evaluation of a rule leaves: its value, the context and the world.
pub struct FieldOut {
    pub value: Option<Seq<char>>,
    pub ctx: CtxV,
    pub w: World,
}

/// The value of a rule in a scope. First the variables that it sets get their
/// values, each by a rule of its own in the same scope; then comes the rest.
///
/// A rule within a rule is shorter. Where it is not, it was written as a number
/// or a truth value, which sets no variables.
pub open spec fn field(s: ScopeV, rule: Seq<char>, base: Seq<char>, c: CtxV, w: World, o: Oracle) -> FieldOut
    decreases rule.len(), 1int, 0int,
{
    match (s, get_key(rule)) {
        (ScopeV::Row(row), _) => {
            let puts = puts_of(rule, 0);
            let st = put_all(s, puts, puts.len() as int, rule.len(), base, c, w, o);
            FieldOut { value: row_value(without_puts(rule, 0), row), ctx: st.0, w: st.1 }
        },
        (_, Some(key)) => {
            let got = context_get(c, key, w, o);
            FieldOut { value: got.0, ctx: c, w: got.1 }
        },
        (_, None) => {
            let puts = puts_of(rule, 0);
            let st = put_all(s, puts, puts.len() as int, rule.len(), base, c, w, o);
            let got = plain_field(s, without_puts(rule, 0), base, st.0, st.1, o);
            FieldOut { value: got.0, ctx: st.0, w: got.1 }
        },
    }
}

/// The context and the world after the first `n` variables are set.
pub open spec fn put_all(
    s: ScopeV,
    puts: Seq<(Seq<char>, Seq<char>)>,
    n: int,
    bound: nat,
    base: Seq<char>,
    c: CtxV,
    w: World,
    o: Oracle,
) -> (CtxV, World)
    decreases bound, 0int, n,
{
    if n <= 0 {
        (c, w)
    } else {
        let st = put_all(s, puts, n - 1, bound, base, c, w, o);
        let rule = puts[n - 1].1;
        if !(s is Row) && rule.len() < bound {
            let got = field(s, rule, base, st.0, st.1, o);
            context_put(got.ctx, puts[n - 1].0, or_blank(got.value), got.w)
        } else {
            let got = simple_field(s, rule, base, st.0, st.1, o);
            context_put(st.0, puts[n - 1].0, or_blank(got.0), got.1)
        }
    }
}

/// Sets the variables of a rule, each to the value of its own rule; `length` is
/// the length of the rule that they stand in.
pub fn eval_puts<E: ScriptEngine>(
    s: &Scope,
    entries: &Vec<PutEntry>,
    length: usize,
    base: &str,
    ctx: &mut RuleVariableContext,
    host: &mut Host<E>,
)
    requires
        s.wf(),
    ensures
        offline(old(host).log(), final(host).log()),
        forall|o: Oracle| #[trigger]
            agrees(final(host).log(), o) ==> put_all(
                s.model(),
                put_models(entries@),
                entries.len() as int,
                length as nat,
                base@,
                old(ctx).model(),
                old(host).world(),
                o,
            ) == (final(ctx).model(), final(host).world()),
    decreases length, 0int,
{
    broadcast use group_log;

    let is_row = match s {
        Scope::Row(_) => true,
        _ => false,
    };
    let ghost c0 = ctx.model();
    let ghost w0 = host.world();
    let ghost sv = s.model();
    let ghost puts = put_models(entries@);
    let mut k: usize = 0;
    while k < entries.len()
        invariant
            k <= entries.len(),
            s.wf(),
            sv == s.model(),
            is_row == (sv is Row),
            puts == put_models(entries@),
            c0 == old(ctx).model(),
            w0 == old(host).world(),
            offline(old(host).log(), host.log()),
            forall|o: Oracle| #[trigger]
                agrees(host.log(), o) ==> put_all(sv, puts, k as int, length as nat, base@, c0, w0, o) == (
                    ctx.model(),
                    host.world(),
                ),
        decreases entries.len() - k,
    {
        assert(puts[k as int] == (entries@[k as int].key@, entries@[k as int].value_rule@));
        let ghost log1 = host.log();
        let value_rule = entries[k].value_rule.as_str();
        let value = if !is_row && value_rule.unicode_len() < length {
            eval_field(s, value_rule, base, ctx, host)
        } else {
            eval_simple(s, value_rule, base, ctx, host)
        };
        let ghost log2 = host.log();
        ctx.insert(entries[k].key.clone(), text_or_blank(value), host);
        proof {
            lemma_offline_on(old(host).log(), log1, log2);
            lemma_offline_on(old(host).log(), log2, host.log());
            assert forall|o: Oracle| #[trigger] agrees(host.log(), o) implies put_all(
                sv,
                puts,
                k + 1,
                length as nat,
                base@,
                c0,
                w0,
                o,
            ) == (ctx.model(), host.world()) by {
                assert(agrees(log2, o));
                assert(agrees(log1, o));
            }
        }
        k = k + 1;
    }
}

/// Evaluates the rule of a field.
pub fn eval_field<E: ScriptEngine>(
    s: &Scope,
    rule: &str,
    base: &str,
    ctx: &mut RuleVariableContext,
    host: &mut Host<E>,
) -> (r: Option<String>)
    requires
        s.wf(),
    ensures
        offline(old(host).log(), final(host).log()),
        forall|o: Oracle| #[trigger]
            agrees(final(host).log(), o) ==> field(
                s.model(),
                rule@,
                base@,
                old(ctx).model(),
                old(host).world(),
                o,
            ) == (FieldOut { value: opt_text(r), ctx: final(ctx).model(), w: final(host).world() }),
    decreases rule@.len(), 1int,
{
    broadcast use group_log;

    let is_row = match s {
        Scope::Row(_) => true,
        _ => false,
    };
    if !is_row {
        if let Some(key) = direct_get_key(rule) {
            return ctx.get(key.as_str(), host);
        }
    }
    let ghost c0 = ctx.model();
    let ghost w0 = host.world();
    let ghost sv = s.model();
    let json = match s {
        Scope::Value(_) => true,
        _ => false,
    };
    let (rest, entries) = extract_put_entries(rule);
    assert(put_models(entries@).len() == entries.len());
    eval_puts(s, &entries, rule.unicode_len(), base, ctx, host);
    if let Scope::Row(row) = s {
        return capture_rule_values(rest.as_str(), row);
    }
    let ghost log3 = host.log();
    let (mode, text) = crate::parser::source_rule::classify_rule_mode(rest.as_str(), fallback_of(s), json);
    let compiled = SourceRule { mode, rule: text, replacement_rule: None, put_entries: Vec::new() };
    let r = eval_compiled(s, compiled, base, ctx, host, Ghost(rest@));
    proof {
        lemma_offline_on(old(host).log(), log3, host.log());
        assert forall|o: Oracle| #[trigger] agrees(host.log(), o) implies field(sv, rule@, base@, c0, w0, o) == (
        FieldOut { value: opt_text(r), ctx: ctx.model(), w: host.world() }) by {
            assert(agrees(log3, o));
        }
    }
    r
}

/// The value of a rule that may be missing. Nodes and JSON values read a
/// missing rule as a blank one; elsewhere it has no value.
pub open spec fn rule_field(s: ScopeV, rule: Option<Seq<char>>, base: Seq<char>, c: CtxV, w: World, o: Oracle) -> FieldOut {
    match (rule, s) {
        (Some(r), _) => field(s, r, base, c, w, o),
        (None, ScopeV::Node(..)) => field(s, ""@, base, c, w, o),
        (None, ScopeV::Value(_)) => field(s, ""@, base, c, w, o),
        (None, _) => FieldOut { value: None, ctx: c, w },
    }
}

/// Evaluates the rule of a field, if there is one.
pub fn eval_rule<E: ScriptEngine>(
    s: &Scope,
    rule: &Option<String>,
    base: &str,
    ctx: &mut RuleVariableContext,
    host: &mut Host<E>,
) -> (r: Option<String>)
    requires
        s.wf(),
    ensures
        offline(old(host).log(), final(host).log()),
        forall|o: Oracle| #[trigger]
            agrees(final(host).log(), o) ==> rule_field(
                s.model(),
                opt_text(*rule),
                base@,
                old(ctx).model(),
                old(host).world(),
                o,
            ) == (FieldOut { value: opt_text(r), ctx: final(ctx).model(), w: final(host).world() }),
{
    broadcast use group_log;

    match rule {
        Some(text) => eval_field(s, text.as_str(), base, ctx, host),
        None => match s {
            Scope::Node(..) => eval_field(s, "", base, ctx, host),
            Scope::Value(_) => eval_field(s, "", base, ctx, host),
            _ => None,
        },
    }
}

pub open spec fn rule_texts(rules: Seq<&Option<String>>) -> Seq<Option<Seq<char>>> {
    Seq::new(rules.len(), |i: int| opt_text(*rules[i]))
}

/// What the evaluation of several rules leaves.
pub struct FieldsOut {
    pub values: Seq<Option<Seq<char>>>,
    pub ctx: CtxV,
    pub w: World,
}

/// The values of the first `n` rules, evaluated one after the other.
pub open spec fn rule_fields(
    s: ScopeV,
    rules: Seq<Option<Seq<char>>>,
    n: int,
    base: Seq<char>,
    c: CtxV,
    w: World,
    o: Oracle,
) -> FieldsOut
    decreases n,
{
    if n <= 0 {
        FieldsOut { values: seq![], ctx: c, w }
    } else {
        let before = rule_fields(s, rules, n - 1, base, c, w, o);
        let got = rule_field(s, rules[n - 1], base, before.ctx, before.w, o);
        FieldsOut { values: before.values.push(got.value), ctx: got.ctx, w: got.w }
    }
}

/// Evaluates rules one after the other.
pub fn eval_rules<E: ScriptEngine>(
    s: &Scope,
    rules: &Vec<&Option<String>>,
    base: &str,
    ctx: &mut RuleVariableContext,
    host: &mut Host<E>,
) -> (r: Vec<Option<String>>)
    requires
        s.wf(),
    ensures
        r.len() == rules.len(),
        offline(old(host).log(), final(host).log()),
        forall|o: Oracle| #[trigger]
            agrees(final(host).log(), o) ==> rule_fields(
                s.model(),
                rule_texts(rules@),
                rules.len() as int,
                base@,
                old(ctx).model(),
                old(host).world(),
                o,
            ) == (FieldsOut { values: opt_texts(r@), ctx: final(ctx).model(), w: final(host).world() }),
{
    broadcast use group_log;

    let ghost c0 = ctx.model();
    let ghost w0 = host.world();
    let ghost all = rule_texts(rules@);
    let mut r: Vec<Option<String>> = Vec::new();
    let mut k: usize = 0;
    assert(opt_texts(r@) =~= seq![]);
    while k < rules.len()
        invariant
            k <= rules.len(),
            r.len() == k,
            s.wf(),
            all == rule_texts(rules@),
            c0 == old(ctx).model(),
            w0 == old(host).world(),
            offline(old(host).log(), host.log()),
            forall|o: Oracle| #[trigger]
                agrees(host.log(), o) ==> rule_fields(s.model(), all, k as int, base@, c0, w0, o) == (FieldsOut {
                    values: opt_texts(r@),
                    ctx: ctx.model(),
                    w: host.world(),
                }),
        decreases rules.len() - k,
    {
        let ghost log1 = host.log();
        let ghost before = opt_texts(r@);
        assert(all[k as int] == opt_text(*rules@[k as int]));
        let v = eval_rule(s, rules[k], base, ctx, host);
        let ghost x = opt_text(v);
        r.push(v);
        proof {
            lemma_offline_on(old(host).log(), log1, host.log());
            assert(opt_texts(r@) =~= before.push(x));
            assert forall|o: Oracle| #[trigger] agrees(host.log(), o) implies rule_fields(
                s.model(),
                all,
                k + 1,
                base@,
                c0,
                w0,
                o,
            ) == (FieldsOut { values: opt_texts(r@), ctx: ctx.model(), w: host.world() }) by {
                assert(agrees(log1, o));
            }
        }
        k = k + 1;
    }
    r
}

} // verus!
