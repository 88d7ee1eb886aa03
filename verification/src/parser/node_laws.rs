//! What the nodes of a document are written as.

use crate::executor::answer_laws::lemma_member;
use crate::ext::json::{member_of, JsonV};
use crate::ext::xml::{xml_dom_of, xml_text_of, XPathNodeV, XmlKindV, XmlNodeV};
use crate::parser::script::{Oracle, World};
use crate::parser::xpath::{
    attrs_markup, children_markup, element_markup, escaped_attribute, escaped_text, is_block_name, is_void_name,
    line_ended, node_value, with_children_text, with_element_text, xpath_result, xpath_strings,
};
use crate::util::chars::{
    has_suffix, is_space, lemma_piece_split, lemma_solid_ends, lemma_unsplit, replace_of, split_from,
};
use vstd::prelude::*;
use vstd::string::*;

verus! {

/// How a character of a text is written in markup.
pub open spec fn text_char(c: char) -> Seq<char> {
    if c == '&' {
        "&amp;"@
    } else if c == '<' {
        "&lt;"@
    } else if c == '>' {
        "&gt;"@
    } else {
        seq![c]
    }
}

/// How a character of the value of an attribute is written in markup.
pub open spec fn value_char(c: char) -> Seq<char> {
    if c == '"' {
        "&quot;"@
    } else {
        text_char(c)
    }
}

proof fn last_mark(s: Seq<char>, mark: char) -> (k: int)
    ensures
        -1 <= k < s.len(),
        k >= 0 ==> s[k] == mark,
        forall|j: int| k < j < s.len() ==> s[j] != mark,
    decreases s.len(),
{
    if s.len() == 0 {
        -1
    } else if s.last() == mark {
        s.len() - 1
    } else {
        let less = s.drop_last();
        let k = last_mark(less, mark);
        assert forall|j: int| k < j < s.len() implies s[j] != mark by {
            if j < less.len() {
                assert(less[j] == s[j]);
            }
        }
        k
    }
}

proof fn lemma_replaced_absent(s: Seq<char>, mark: char, to: Seq<char>)
    requires
        !s.contains(mark),
    ensures
        replace_of(s, seq![mark], to) == s,
{
    lemma_unsplit(s, mark);
    assert(seq![s][0] == s);
}

proof fn lemma_replaced_last(a: Seq<char>, mark: char, b: Seq<char>, to: Seq<char>)
    requires
        !b.contains(mark),
    ensures
        replace_of(a + seq![mark] + b, seq![mark], to) == replace_of(a, seq![mark], to) + to + b,
{
    lemma_piece_split(a, b, mark, 0);
    let parts = split_from(a, seq![mark], 0);
    assert(parts.len() > 0);
    assert(parts.push(b).drop_last() =~= parts);
    assert(parts.push(b).last() == b);
}

proof fn lemma_replaced_push(s: Seq<char>, mark: char, to: Seq<char>, c: char)
    ensures
        replace_of(s.push(c), seq![mark], to) == replace_of(s, seq![mark], to) + if c == mark {
            to
        } else {
            seq![c]
        },
{
    let none: Seq<char> = seq![];
    if c == mark {
        lemma_replaced_last(s, mark, none, to);
        assert(s + seq![mark] + none =~= s.push(c));
        assert(replace_of(s, seq![mark], to) + to + none =~= replace_of(s, seq![mark], to) + to);
    } else {
        let k = last_mark(s, mark);
        if k < 0 {
            lemma_replaced_absent(s, mark, to);
            lemma_replaced_absent(s.push(c), mark, to);
            assert(s.push(c) =~= s + seq![c]);
        } else {
            let a = s.take(k);
            let b = s.skip(k + 1);
            assert(s =~= a + seq![mark] + b);
            assert(s.push(c) =~= a + seq![mark] + b.push(c));
            lemma_replaced_last(a, mark, b, to);
            lemma_replaced_last(a, mark, b.push(c), to);
            assert(replace_of(a, seq![mark], to) + to + b.push(c) =~= replace_of(a, seq![mark], to) + to + b + seq![c]);
        }
    }
}

proof fn lemma_replaced_add(a: Seq<char>, b: Seq<char>, mark: char, to: Seq<char>)
    ensures
        replace_of(a + b, seq![mark], to) == replace_of(a, seq![mark], to) + replace_of(b, seq![mark], to),
    decreases b.len(),
{
    if b.len() == 0 {
        assert(a + b =~= a);
        lemma_replaced_absent(b, mark, to);
        assert(replace_of(a, seq![mark], to) + b =~= replace_of(a, seq![mark], to));
    } else {
        let less = b.drop_last();
        let c = b.last();
        lemma_replaced_add(a, less, mark, to);
        lemma_replaced_push(a + less, mark, to, c);
        lemma_replaced_push(less, mark, to, c);
        assert((a + less).push(c) =~= a + b);
        assert(less.push(c) =~= b);
        assert(replace_of(a + b, seq![mark], to) =~= replace_of(a, seq![mark], to) + replace_of(b, seq![mark], to));
    }
}

proof fn lemma_replaced_char(c: char, mark: char, to: Seq<char>)
    ensures
        replace_of(seq![c], seq![mark], to) == if c == mark {
            to
        } else {
            seq![c]
        },
{
    let none: Seq<char> = seq![];
    lemma_replaced_push(none, mark, to, c);
    lemma_replaced_absent(none, mark, to);
    assert(none.push(c) =~= seq![c]);
    assert(none + seq![c] =~= seq![c]);
    assert(none + to =~= to);
}

proof fn lemma_marks()
    ensures
        "&"@ == seq!['&'],
        "<"@ == seq!['<'],
        ">"@ == seq!['>'],
        "\""@ == seq!['"'],
        "&amp;"@ == seq!['&', 'a', 'm', 'p', ';'],
        "&lt;"@ == seq!['&', 'l', 't', ';'],
        "&gt;"@ == seq!['&', 'g', 't', ';'],
        "&quot;"@ == seq!['&', 'q', 'u', 'o', 't', ';'],
{
    reveal_strlit("&");
    reveal_strlit("<");
    reveal_strlit(">");
    reveal_strlit("\"");
    reveal_strlit("&amp;");
    reveal_strlit("&lt;");
    reveal_strlit("&gt;");
    reveal_strlit("&quot;");
    assert("&"@ =~= seq!['&']);
    assert("<"@ =~= seq!['<']);
    assert(">"@ =~= seq!['>']);
    assert("\""@ =~= seq!['"']);
    assert("&amp;"@ =~= seq!['&', 'a', 'm', 'p', ';']);
    assert("&lt;"@ =~= seq!['&', 'l', 't', ';']);
    assert("&gt;"@ =~= seq!['&', 'g', 't', ';']);
    assert("&quot;"@ =~= seq!['&', 'q', 'u', 'o', 't', ';']);
}

proof fn lemma_escaped_push(s: Seq<char>, c: char)
    ensures
        escaped_text(s.push(c)) == escaped_text(s) + text_char(c),
        escaped_attribute(s.push(c)) == escaped_attribute(s) + value_char(c),
{
    lemma_marks();
    let amp = "&amp;"@;
    let lt = "&lt;"@;
    let gt = "&gt;"@;
    let quot = "&quot;"@;
    let s1 = replace_of(s, seq!['&'], amp);
    let s2 = replace_of(s1, seq!['<'], lt);
    let e1 = if c == '&' {
        amp
    } else {
        seq![c]
    };
    let e2 = replace_of(e1, seq!['<'], lt);
    let e3 = replace_of(e2, seq!['>'], gt);
    lemma_replaced_push(s, '&', amp, c);
    lemma_replaced_add(s1, e1, '<', lt);
    lemma_replaced_add(s2, e2, '>', gt);
    lemma_replaced_absent(amp, '<', lt);
    lemma_replaced_absent(amp, '>', gt);
    lemma_replaced_absent(lt, '>', gt);
    lemma_replaced_char(c, '<', lt);
    lemma_replaced_char(c, '>', gt);
    assert(e3 == text_char(c));
    lemma_replaced_add(escaped_text(s), e3, '"', quot);
    lemma_replaced_absent(amp, '"', quot);
    lemma_replaced_absent(lt, '"', quot);
    lemma_replaced_absent(gt, '"', quot);
    lemma_replaced_char(c, '"', quot);
}

/// A text stands in markup character by character, with `&`, `<` and `>` (and
/// quotes in the value of an attribute) written as entities, each once.
pub proof fn law_text_is_escaped(s: Seq<char>)
    ensures
        escaped_text(s) == s.map_values(|c: char| text_char(c)).flatten(),
        escaped_attribute(s) == s.map_values(|c: char| value_char(c)).flatten(),
    decreases s.len(),
{
    broadcast use Seq::lemma_flatten_push;

    let text = |c: char| text_char(c);
    let value = |c: char| value_char(c);
    if s.len() == 0 {
        lemma_marks();
        lemma_replaced_absent(s, '&', "&amp;"@);
        lemma_replaced_absent(s, '<', "&lt;"@);
        lemma_replaced_absent(s, '>', "&gt;"@);
        lemma_replaced_absent(s, '"', "&quot;"@);
        assert(s.map_values(text).flatten() =~= s);
        assert(s.map_values(value).flatten() =~= s);
    } else {
        let less = s.drop_last();
        law_text_is_escaped(less);
        lemma_escaped_push(less, s.last());
        assert(less.push(s.last()) =~= s);
        assert(s.map_values(text) =~= less.map_values(text).push(text(s.last())));
        assert(s.map_values(value) =~= less.map_values(value).push(value(s.last())));
    }
}

/// How an attribute stands in a tag.
pub open spec fn attribute_text(a: (Seq<char>, Seq<char>)) -> Seq<char> {
    " "@ + a.0 + "=\""@ + escaped_attribute(a.1) + "\""@
}

proof fn lemma_attrs(attrs: Seq<(Seq<char>, Seq<char>)>, n: int)
    requires
        0 <= n <= attrs.len(),
    ensures
        attrs_markup(attrs, n) == attrs.take(n).map_values(|a: (Seq<char>, Seq<char>)| attribute_text(a)).flatten(),
    decreases n,
{
    broadcast use Seq::lemma_flatten_push;

    let f = |a: (Seq<char>, Seq<char>)| attribute_text(a);
    if n == 0 {
        assert(attrs.take(0).map_values(f).flatten() =~= seq![]);
    } else {
        lemma_attrs(attrs, n - 1);
        assert(attrs.take(n).map_values(f) =~= attrs.take(n - 1).map_values(f).push(f(attrs[n - 1])));
        assert(attrs_markup(attrs, n) =~= attrs_markup(attrs, n - 1) + attribute_text(attrs[n - 1]));
    }
}

/// How a child stands in the markup of its parent; comments do not.
pub open spec fn child_markup(d: Seq<XmlNodeV>, c: int) -> Seq<char> {
    match d[c].kind {
        XmlKindV::Element { .. } => element_markup(d, c, true),
        XmlKindV::Text(t) => escaped_text(t),
        _ => seq![],
    }
}

proof fn lemma_children(d: Seq<XmlNodeV>, i: int, n: int)
    requires
        0 <= i < d.len(),
        0 <= n <= d[i].children.len(),
        forall|k: int| 0 <= k < d[i].children.len() ==> i < #[trigger] d[i].children[k] < d.len(),
    ensures
        children_markup(d, i, n) == d[i].children.take(n).map_values(|c: int| child_markup(d, c)).flatten(),
    decreases n,
{
    broadcast use Seq::lemma_flatten_push;

    let f = |c: int| child_markup(d, c);
    let list = d[i].children;
    if n == 0 {
        assert(list.take(0).map_values(f).flatten() =~= seq![]);
    } else {
        lemma_children(d, i, n - 1);
        let c = list[n - 1];
        assert(i < c < d.len());
        assert(list.take(n).map_values(f) =~= list.take(n - 1).map_values(f).push(f(c)));
        assert(children_markup(d, i, n) =~= children_markup(d, i, n - 1) + child_markup(d, c));
    }
}

/// The markup inside an element is that of its children, in order; around it
/// stand the tags of the element with all its attributes, or one closed tag
/// where the element is void.
pub proof fn law_element_is_written(d: Seq<XmlNodeV>, i: int)
    requires
        0 <= i < d.len(),
        d[i].kind is Element,
        forall|k: int| 0 <= k < d[i].children.len() ==> i < #[trigger] d[i].children[k] < d.len(),
    ensures
        ({
            let inner = d[i].children.map_values(|c: int| child_markup(d, c)).flatten();
            let name = d[i].kind->name;
            let tag = "<"@ + name + d[i].kind->attrs.map_values(
                |a: (Seq<char>, Seq<char>)| attribute_text(a),
            ).flatten();
            &&& element_markup(d, i, false) == inner
            &&& element_markup(d, i, true) == if is_void_name(name) {
                tag + " />"@
            } else {
                tag + ">"@ + inner + "</"@ + name + ">"@
            }
        }),
{
    let list = d[i].children;
    let attrs = d[i].kind->attrs;
    lemma_children(d, i, list.len() as int);
    lemma_attrs(attrs, attrs.len() as int);
    assert(list.take(list.len() as int) =~= list);
    assert(attrs.take(attrs.len() as int) =~= attrs);
}

/// A text that is written out only grows: a block element starts on a line of
/// its own and ends it.
pub proof fn law_blocks_have_lines(d: Seq<XmlNodeV>, i: int, out: Seq<char>)
    requires
        0 <= i < d.len(),
    ensures
        ({
            let r = with_element_text(d, i, out);
            &&& out.is_prefix_of(r)
            &&& d[i].kind is Element && is_block_name(d[i].kind->name) ==> {
                &&& r.len() > 0 ==> r.last() == '\n'
                &&& out.len() > 0 && out.last() != '\n' ==> out.push('\n').is_prefix_of(r)
            }
        }),
    decreases d.len() - i, d[i].children.len() + 1,
{
    if let XmlKindV::Element { name, .. } = d[i].kind {
        let n = d[i].children.len() as int;
        if is_block_name(name) {
            let start = line_ended(out);
            lemma_children_grow(d, i, n, start);
            let r = with_children_text(d, i, n, start);
            assert(start.is_prefix_of(line_ended(r)));
            assert(out.is_prefix_of(line_ended(r)));
        } else {
            lemma_children_grow(d, i, n, out);
        }
    }
}

proof fn lemma_children_grow(d: Seq<XmlNodeV>, i: int, n: int, out: Seq<char>)
    ensures
        out.is_prefix_of(with_children_text(d, i, n, out)),
    decreases d.len() - i, n,
{
    if n <= 0 || i < 0 || i >= d.len() || n > d[i].children.len() {
    } else {
        let c = d[i].children[n - 1];
        let before = with_children_text(d, i, n - 1, out);
        lemma_children_grow(d, i, n - 1, out);
        if i < c < d.len() {
            law_blocks_have_lines(d, c, before);
        }
        let r = with_children_text(d, i, n, out);
        assert(before.is_prefix_of(r));
        assert(out.is_prefix_of(r));
    }
}

/// The texts in an element follow what is written before them as they stand.
pub proof fn law_texts_follow(d: Seq<XmlNodeV>, i: int, text: int, out: Seq<char>)
    requires
        0 <= i < text < d.len(),
        d[i].kind is Element,
        d[i].children == seq![text],
        d[text].kind is Text,
        !is_block_name(d[i].kind->name),
    ensures
        with_element_text(d, i, out) == out + d[text].kind->Text_0,
{
    assert(d[i].children.len() == 1 && d[i].children[0] == text);
    assert(with_element_text(d, i, out) == with_children_text(d, i, 1, out));
    assert(with_children_text(d, i, 0, out) == out);
    assert(with_children_text(d, i, 1, out) == out + d[text].kind->Text_0);
}

/// Each node of a result gives one text, in order: its own, or the markup inside
/// it where the rule asks for that.
pub proof fn law_nodes_give_texts(xml: Seq<char>, node: int, rule: Seq<char>, w: World, o: Oracle, k: int, at: int)
    requires
        rule.len() > 0,
        !is_space(rule[0]),
        !is_space(rule.last()),
        xpath_result(xml, node, rule, w, o).0 is Nodes,
        0 <= k < xpath_result(xml, node, rule, w, o).0->Nodes_0.len(),
        xpath_result(xml, node, rule, w, o).0->Nodes_0[k] == XPathNodeV::At(at),
    ensures
        ({
            let found = xpath_result(xml, node, rule, w, o).0->Nodes_0;
            let d = xml_dom_of(xml)->0;
            let texts = xpath_strings(xml, node, rule, false, w, o).0;
            &&& texts.len() == found.len()
            &&& rule.last() != ')' ==> texts[k] == xml_text_of(xml, at)
            &&& has_suffix(rule, "/html()"@) && d[at].kind is Element ==> texts[k] == element_markup(d, at, false)
            &&& d[at].kind !is Element ==> texts[k] == xml_text_of(xml, at)
        }),
{
    reveal_strlit("html()");
    reveal_strlit("/html()");
    lemma_solid_ends(rule);
    assert("html()"@.last() == ')' && "/html()"@.last() == ')');
    if has_suffix(rule, "/html()"@) {
        assert(rule.subrange(rule.len() - 7, rule.len() as int)[6] == rule.last());
    }
}

/// A value that is no node is the one text of a result; a rule that fails gives
/// none.
pub proof fn law_value_gives_text(xml: Seq<char>, node: int, rule: Seq<char>, formatted: bool, w: World, o: Oracle)
    ensures
        ({
            let found = xpath_result(xml, node, rule, w, o).0;
            let texts = xpath_strings(xml, node, rule, formatted, w, o).0;
            &&& found is Text ==> texts == seq![found->Text_0]
            &&& found is Failed ==> texts.len() == 0
        }),
{
}

/// A script is told the text and the markup of an element, inside and outside
/// its tags, and of an attribute its value.
pub proof fn law_node_for_scripts(xml: Seq<char>, i: int)
    ensures
        ({
            let d = xml_dom_of(xml)->0;
            let v = node_value(xml, i);
            &&& d[i].kind is Element ==> {
                &&& member_of(v, "text"@) == Some(JsonV::Text(xml_text_of(xml, i)))
                &&& member_of(v, "html"@) == Some(JsonV::Text(element_markup(d, i, false)))
                &&& member_of(v, "outerHtml"@) == Some(JsonV::Text(element_markup(d, i, true)))
            }
            &&& d[i].kind is Attribute ==> v == JsonV::Text(d[i].kind->Attribute_0)
            &&& d[i].kind is Text ==> v == JsonV::Text(xml_text_of(xml, i))
        }),
{
    reveal_strlit("text");
    reveal_strlit("html");
    reveal_strlit("outerHtml");
    assert("text"@[0] == 't' && "html"@[0] == 'h' && "outerHtml"@[0] == 'o');
    if let JsonV::Object(m) = node_value(xml, i) {
        lemma_member(m, 2);
        lemma_member(m, 3);
        lemma_member(m, 4);
    }
}

} // verus!
