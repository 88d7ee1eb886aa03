//! XML documents and XPath, as the `sxd_document` and `sxd_xpath` crates have them.

use crate::ext::dom::ints;
use crate::util::chars::{chars_of, contains, contains_text, copy, list_contains, split_whitespace, texts, words_of};
use vstd::prelude::*;

verus! {

/// A parsed XML document of `sxd_document`.
#[verifier::external_type_specification]
#[verifier::external_body]
pub struct ExPackage(sxd_document::Package);

/// A node that XPath works on.
#[verifier::external_type_specification]
#[verifier::external_body]
pub struct ExXNode<'d>(sxd_xpath::nodeset::Node<'d>);

/// A value that XPath computes.
#[verifier::external_type_specification]
#[verifier::external_body]
pub struct ExValue<'d>(sxd_xpath::Value<'d>);

/// What an XPath function is evaluated in.
#[verifier::external_type_specification]
#[verifier::external_body]
pub struct ExEvaluation<'c, 'd>(sxd_xpath::context::Evaluation<'c, 'd>) where 'd: 'c;

/// Why an XPath function fails.
#[verifier::external_type_specification]
#[verifier::external_body]
pub struct ExFunctionError(sxd_xpath::function::Error);

pub enum XmlKindV {
    Root,
    Element { name: Seq<char>, attrs: Seq<(Seq<char>, Seq<char>)> },
    Text(Seq<char>),
    Attribute(Seq<char>),
    /// A comment or a processing instruction, with its text.
    Other(Seq<char>),
}

pub struct XmlNodeV {
    pub kind: XmlKindV,
    pub children: Seq<int>,
}

pub enum XmlKind {
    Root,
    Element { name: String, attrs: Vec<(String, String)> },
    Text(String),
    Attribute(String),
    /// A comment or a processing instruction, with its text.
    Other(String),
}

pub struct XmlNode {
    pub kind: XmlKind,
    pub children: Vec<usize>,
}

pub open spec fn pairs(v: Seq<(String, String)>) -> Seq<(Seq<char>, Seq<char>)> {
    Seq::new(v.len(), |i: int| (v[i].0@, v[i].1@))
}

impl XmlNode {
    pub open spec fn model(self) -> XmlNodeV {
        XmlNodeV {
            kind: match self.kind {
                XmlKind::Root => XmlKindV::Root,
                XmlKind::Element { name, attrs } => XmlKindV::Element { name: name@, attrs: pairs(attrs@) },
                XmlKind::Text(t) => XmlKindV::Text(t@),
                XmlKind::Attribute(t) => XmlKindV::Attribute(t@),
                XmlKind::Other(t) => XmlKindV::Other(t@),
            },
            children: ints(self.children@),
        }
    }
}

pub open spec fn xml_models(v: Seq<XmlNode>) -> Seq<XmlNodeV> {
    Seq::new(v.len(), |i: int| v[i].model())
}

/// The nodes of the document that `sxd_document` parses from `xml`, in document
/// order, the root first and attributes among them; `None` where it cannot be parsed.
pub uninterp spec fn xml_dom_of(xml: Seq<char>) -> Option<Seq<XmlNodeV>>;

/// The text nodes below the first `n` children of a node, one after the other;
/// comments and processing instructions add nothing.
pub open spec fn text_below(d: Seq<XmlNodeV>, i: int, n: int) -> Seq<char>
    decreases d.len() - i, n,
{
    if i < 0 || i >= d.len() || n <= 0 || n > d[i].children.len() {
        seq![]
    } else {
        let c = d[i].children[n - 1];
        if c <= i || c >= d.len() {
            seq![]
        } else {
            text_below(d, i, n - 1) + match d[c].kind {
                XmlKindV::Element { .. } => text_below(d, c, d[c].children.len() as int),
                XmlKindV::Text(t) => t,
                _ => seq![],
            }
        }
    }
}

/// The string value of a node: its own text, or that of the text nodes below it.
pub open spec fn node_text(d: Seq<XmlNodeV>, i: int) -> Seq<char> {
    match d[i].kind {
        XmlKindV::Root => text_below(d, i, d[i].children.len() as int),
        XmlKindV::Element { .. } => text_below(d, i, d[i].children.len() as int),
        XmlKindV::Text(t) => t,
        XmlKindV::Attribute(t) => t,
        XmlKindV::Other(t) => t,
    }
}

/// The string value of a node of a document.
pub open spec fn xml_text_of(xml: Seq<char>, node: int) -> Seq<char> {
    node_text(xml_dom_of(xml)->0, node)
}

/// What an XPath expression gives for a context node; `ids` tells whether it
/// may use a function `id` that finds elements by their `id` attribute. It is
/// said only of expressions whose result the order of a set leaves alone.
pub uninterp spec fn xpath_of(xml: Seq<char>, node: int, xpath: Seq<char>, ids: bool) -> XPathV;

/// A node that an expression selects: one of the document, or a namespace, which
/// has no position in it, by its address.
pub enum XPathNodeV {
    At(int),
    Namespace(Seq<char>),
}

pub enum XPathNode {
    At(usize),
    Namespace(String),
}

impl XPathNode {
    pub open spec fn model(self) -> XPathNodeV {
        match self {
            XPathNode::At(i) => XPathNodeV::At(i as int),
            XPathNode::Namespace(t) => XPathNodeV::Namespace(t@),
        }
    }
}

pub open spec fn found_nodes(v: Seq<XPathNode>) -> Seq<XPathNodeV> {
    Seq::new(v.len(), |i: int| v[i].model())
}

/// Nothing where the expression cannot be built or evaluated; nodes in document
/// order, namespaces last; or a string, a number or a truth value, written out.
pub enum XPathV {
    Failed,
    Nodes(Seq<XPathNodeV>),
    Text(Seq<char>),
}

pub enum XPath {
    Failed,
    Nodes(Vec<XPathNode>),
    Text(String),
}

impl XPath {
    pub open spec fn model(self) -> XPathV {
        match self {
            XPath::Failed => XPathV::Failed,
            XPath::Nodes(v) => XPathV::Nodes(found_nodes(v@)),
            XPath::Text(t) => XPathV::Text(t@),
        }
    }
}

/// Whether the nodes of a result are nodes of a document with `n` nodes.
pub open spec fn found_within(v: XPathV, n: int) -> bool {
    v matches XPathV::Nodes(s) ==> forall|k: int|
        0 <= k < s.len() ==> (#[trigger] s[k] matches XPathNodeV::At(i) ==> 0 <= i < n)
}

/// Whether the result of an expression may depend on the order in which a set is
/// walked: that of namespaces, that in which numbers are added up, and that of
/// the prefixes which a name may be written with.
pub open spec fn is_unordered(xpath: Seq<char>) -> bool {
    contains_text(xpath, "namespace::"@) || contains_text(xpath, "sum("@) || contains_text(xpath, "name("@)
}

/// Whether an expression, from position `i` on, has a name with a prefix: a
/// single colon outside of quoted texts.
pub open spec fn prefixed_from(s: Seq<char>, i: int, quote: Option<char>) -> bool
    decreases s.len() - i,
{
    if i < 0 || i >= s.len() {
        false
    } else {
        match quote {
            Some(q) => prefixed_from(
                s,
                i + 1,
                if s[i] == q {
                    None
                } else {
                    quote
                },
            ),
            None => if s[i] == '\'' || s[i] == '"' {
                prefixed_from(s, i + 1, Some(s[i]))
            } else if s[i] != ':' {
                prefixed_from(s, i + 1, None)
            } else if i + 1 < s.len() && s[i + 1] == ':' {
                prefixed_from(s, i + 2, None)
            } else {
                true
            },
        }
    }
}

/// Whether an expression has a name with a prefix.
pub open spec fn is_prefixed(xpath: Seq<char>) -> bool {
    prefixed_from(xpath, 0, None)
}

/// Looks for a name with a prefix in an expression.
pub fn has_prefixed_name(xpath: &str) -> (r: bool)
    ensures
        r == is_prefixed(xpath@),
{
    let v = chars_of(xpath);
    let mut quote: Option<char> = None;
    let mut i: usize = 0;
    while i < v.len()
        invariant
            v@ == xpath@,
            i <= v.len(),
            is_prefixed(xpath@) == prefixed_from(xpath@, i as int, quote),
        decreases v.len() - i,
    {
        let c = v[i];
        if let Some(q) = quote {
            if c == q {
                quote = None;
            }
        } else if c == '\'' || c == '"' {
            quote = Some(c);
        } else if c == ':' {
            if i + 1 < v.len() && v[i + 1] == ':' {
                i = i + 1;
            } else {
                return true;
            }
        }
        i = i + 1;
    }
    false
}

/// Tells whether the order of a set may show in the result of an expression.
pub fn shows_order(xpath: &str) -> (r: bool)
    ensures
        r == is_unordered(xpath@),
{
    contains(xpath, "namespace::") || contains(xpath, "sum(") || contains(xpath, "name(")
}

/// Every node stands before its children.
pub open spec fn xml_shape(d: Seq<XmlNodeV>) -> bool {
    &&& d.len() > 0
    &&& forall|i: int, k: int|
        #![trigger d[i].children[k]]
        0 <= i < d.len() && 0 <= k < d[i].children.len() ==> i < d[i].children[k] < d.len()
}

pub open spec fn nodes_within(s: Seq<int>, n: int) -> bool {
    forall|k: int| 0 <= k < s.len() ==> 0 <= #[trigger] s[k] < n
}

/// A parsed XML document and its source.
pub struct XmlDocument {
    source: String,
    package: sxd_document::Package,
}

impl XmlDocument {
    /// The text that the document was parsed from.
    pub closed spec fn source(&self) -> Seq<char> {
        self.source@
    }
}

/// The nodes of an XML document: as plain values, and as `sxd_xpath` handles
/// with the position of each.
pub struct XmlTree<'d> {
    source: &'d str,
    nodes: Vec<XmlNode>,
    handles: Vec<sxd_xpath::nodeset::Node<'d>>,
    at: std::collections::HashMap<sxd_xpath::nodeset::Node<'d>, usize>,
}

impl<'d> XmlTree<'d> {
    pub closed spec fn source(&self) -> Seq<char> {
        self.source@
    }

    pub closed spec fn dom(&self) -> Seq<XmlNodeV> {
        xml_models(self.nodes@)
    }

    pub open spec fn wf(&self) -> bool {
        xml_dom_of(self.source()) == Some(self.dom()) && xml_shape(self.dom())
    }

    pub fn node(&self, i: usize) -> (r: &XmlNode)
        requires
            i < self.dom().len(),
        ensures
            r.model() == self.dom()[i as int],
    {
        assert(xml_models(self.nodes@)[i as int] == self.nodes@[i as int].model());
        &self.nodes[i]
    }
}

/// `sxd_document::parser::parse`: an XML document, if the text is one.
#[verifier::external_body]
pub(crate) fn parse_xml(xml: &str) -> (r: Option<XmlDocument>)
    ensures
        match r {
            Some(d) => d.source() == xml@ && xml_dom_of(xml@) is Some,
            None => xml_dom_of(xml@) is None,
        },
{
    let package = sxd_document::parser::parse(xml).ok()?;
    Some(XmlDocument { source: xml.to_string(), package })
}

/// The nodes of a parsed document in `sxd_xpath`'s document order: the root,
/// every node and every attribute, each before its children.
#[verifier::external_body]
pub(crate) fn open_xml<'d>(doc: &'d XmlDocument) -> (r: XmlTree<'d>)
    requires
        xml_dom_of(doc.source()) is Some,
    ensures
        r.source() == doc.source(),
        xml_dom_of(doc.source()) == Some(r.dom()),
        xml_shape(r.dom()),
{
    let document = doc.package.as_document();
    let all = sxd_xpath::Factory::new().build("/ | //node() | //@*").ok().flatten().unwrap();
    let handles = match all.evaluate(&sxd_xpath::Context::new(), document.root()) {
        Ok(sxd_xpath::Value::Nodeset(found)) => found.document_order(),
        _ => Vec::new(),
    };
    let at: std::collections::HashMap<_, usize> = handles.iter().copied().zip(0..).collect();
    let nodes = handles.iter().map(|n| XmlNode {
        kind: xml_kind(n),
        children: n.children().iter().map(|c| at[c]).collect(),
    }).collect();
    XmlTree { source: doc.source.as_str(), nodes, handles, at }
}

/// What an `sxd_xpath` node is, as a plain value, one for one.
#[verifier::external_body]
fn xml_kind(node: &sxd_xpath::nodeset::Node<'_>) -> (r: XmlKind) {
    match node {
        sxd_xpath::nodeset::Node::Root(_) => XmlKind::Root,
        sxd_xpath::nodeset::Node::Element(e) => XmlKind::Element {
            name: e.name().local_part().to_string(),
            attrs: e.attributes().iter().map(|a| {
                (a.name().local_part().to_string(), a.value().to_string())
            }).collect(),
        },
        sxd_xpath::nodeset::Node::Text(t) => XmlKind::Text(t.text().to_string()),
        sxd_xpath::nodeset::Node::Attribute(a) => XmlKind::Attribute(a.value().to_string()),
        other => XmlKind::Other(other.string_value()),
    }
}

/// `sxd_xpath::nodeset::Node::string_value`: the text of a node, and for an
/// element or the root the text nodes below it in document order.
#[verifier::external_body]
pub(crate) fn string_value(tree: &XmlTree<'_>, node: usize) -> (r: String)
    requires
        tree.wf(),
        node < tree.dom().len(),
    ensures
        r@ == xml_text_of(tree.source(), node as int),
{
    tree.handles[node].string_value()
}

/// An `sxd_xpath` node of a result as a plain value, one for one.
#[verifier::external_body]
fn found_node<'d>(tree: &XmlTree<'d>, node: &sxd_xpath::nodeset::Node<'d>) -> (r: XPathNode) {
    match node {
        sxd_xpath::nodeset::Node::Namespace(s) => XPathNode::Namespace(s.uri().to_string()),
        other => XPathNode::At(tree.at[other]),
    }
}

/// `sxd_xpath::XPath::evaluate` from a node. It aborts on a name test with a
/// prefix, since none is declared. Of an expression that shows the order of a
/// set only that its nodes are nodes of the document is said.
#[verifier::external_body]
pub(crate) fn evaluate_xpath(tree: &XmlTree<'_>, node: usize, xpath: &str, ids: bool) -> (r: XPath)
    requires
        tree.wf(),
        node < tree.dom().len(),
        !is_prefixed(xpath@),
    ensures
        !is_unordered(xpath@) ==> r.model() == xpath_of(tree.source(), node as int, xpath@, ids),
        found_within(r.model(), tree.dom().len() as int),
{
    let mut context = sxd_xpath::Context::new();
    if ids {
        context.set_function("id", IdFunction);
    }
    let built = sxd_xpath::Factory::new().build(xpath).ok().flatten();
    match built.and_then(|x| x.evaluate(&context, tree.handles[node]).ok()) {
        Some(sxd_xpath::Value::Nodeset(found)) => XPath::Nodes(
            found.document_order().iter().map(|n| found_node(tree, n)).collect(),
        ),
        Some(sxd_xpath::Value::String(t)) => XPath::Text(t),
        Some(sxd_xpath::Value::Number(n)) => XPath::Text(n.to_string()),
        Some(sxd_xpath::Value::Boolean(b)) => XPath::Text(b.to_string()),
        None => XPath::Failed,
    }
}

/// The positions of the first `n` nodes that have one.
pub open spec fn positions_in(s: Seq<XPathNodeV>, n: int) -> Seq<int>
    decreases n,
{
    if n <= 0 {
        seq![]
    } else {
        match s[n - 1] {
            XPathNodeV::At(i) => positions_in(s, n - 1).push(i),
            XPathNodeV::Namespace(_) => positions_in(s, n - 1),
        }
    }
}

/// The positions of the nodes that have one.
pub fn positions_of_found(tree: &XmlTree<'_>, v: &Vec<XPathNode>) -> (r: Vec<usize>)
    requires
        found_within(XPathV::Nodes(found_nodes(v@)), tree.dom().len() as int),
    ensures
        ints(r@) == positions_in(found_nodes(v@), v.len() as int),
        nodes_within(ints(r@), tree.dom().len() as int),
{
    let ghost all = found_nodes(v@);
    let mut r: Vec<usize> = Vec::new();
    let mut k: usize = 0;
    assert(ints(r@) =~= seq![]);
    while k < v.len()
        invariant
            k <= v.len(),
            all == found_nodes(v@),
            found_within(XPathV::Nodes(all), tree.dom().len() as int),
            ints(r@) == positions_in(all, k as int),
            nodes_within(ints(r@), tree.dom().len() as int),
        decreases v.len() - k,
    {
        assert(all[k as int] == v@[k as int].model());
        if let XPathNode::At(i) = &v[k] {
            let ghost before = ints(r@);
            r.push(*i);
            assert(ints(r@) =~= before.push(*i as int));
        }
        k = k + 1;
    }
    r
}

/// The words of all the texts, in order.
pub open spec fn all_words(v: Seq<Seq<char>>, n: int) -> Seq<Seq<char>>
    decreases n,
{
    if n <= 0 {
        seq![]
    } else {
        all_words(v, n - 1) + words_of(v[n - 1])
    }
}

/// The identifiers that the function `id` looks for: the words of its
/// argument's string values.
pub fn id_words(values: &Vec<String>) -> (r: Vec<String>)
    ensures
        texts(r@) == all_words(texts(values@), values.len() as int),
{
    let mut r: Vec<String> = Vec::new();
    let mut k: usize = 0;
    assert(texts(r@) =~= seq![]);
    while k < values.len()
        invariant
            k <= values.len(),
            texts(r@) == all_words(texts(values@), k as int),
        decreases values.len() - k,
    {
        assert(texts(values@)[k as int] == values@[k as int]@);
        let mut more = split_whitespace(values[k].as_str());
        let ghost before = texts(r@);
        let ghost added = texts(more@);
        r.append(&mut more);
        assert(texts(r@) =~= before + added);
        k = k + 1;
    }
    r
}

/// The positions, among the first `n` identifiers, of those that are words of the values.
pub open spec fn id_positions(values: Seq<Seq<char>>, ids: Seq<Seq<char>>, n: int) -> Seq<int>
    decreases n,
{
    if n <= 0 {
        seq![]
    } else if all_words(values, values.len() as int).contains(ids[n - 1]) {
        id_positions(values, ids, n - 1).push(n - 1)
    } else {
        id_positions(values, ids, n - 1)
    }
}

/// Finds the identifiers that are words of the values.
pub fn matching_ids(values: &Vec<String>, ids: &Vec<String>) -> (r: Vec<usize>)
    ensures
        ints(r@) == id_positions(texts(values@), texts(ids@), ids.len() as int),
        forall|i: int| 0 <= i < r.len() ==> #[trigger] r@[i] < ids.len(),
{
    let words = id_words(values);
    let ghost all = texts(ids@);
    let ghost given = texts(values@);
    assert(given.len() == values.len());
    let mut r: Vec<usize> = Vec::new();
    let mut k: usize = 0;
    assert(ints(r@) =~= seq![]);
    while k < ids.len()
        invariant
            k <= ids.len(),
            all == texts(ids@),
            texts(words@) == all_words(given, given.len() as int),
            ints(r@) == id_positions(given, all, k as int),
            forall|i: int| 0 <= i < r.len() ==> #[trigger] r@[i] < ids.len(),
        decreases ids.len() - k,
    {
        assert(all[k as int] == ids@[k as int]@);
        if list_contains(&words, ids[k].as_str()) {
            let ghost before = ints(r@);
            r.push(k);
            assert(ints(r@) =~= before.push(k as int));
        }
        k = k + 1;
    }
    r
}

/// The string values of an `sxd_xpath` value: of each node in document order, or
/// of the value itself. A value is opaque, so what they are is left unsaid.
#[verifier::external_body]
fn value_texts(value: &sxd_xpath::Value<'_>) -> (r: Vec<String>) {
    match value {
        sxd_xpath::Value::Nodeset(found) => found.document_order().iter().map(|n| n.string_value()).collect(),
        value => vec![value.string()],
    }
}

/// `Args::exactly` of `sxd_xpath`: the arguments, or the error where their number
/// is not the expected one.
#[verifier::external_body]
fn exactly<'d>(args: Vec<sxd_xpath::Value<'d>>, expected: usize) -> (r: Result<
    Vec<sxd_xpath::Value<'d>>,
    sxd_xpath::function::Error,
>)
    ensures
        match r {
            Ok(v) => v == args && args.len() == expected,
            Err(_) => args.len() != expected,
        },
{
    let given = sxd_xpath::function::Args(args);
    given.exactly(expected)?;
    Ok(given.0)
}

/// The nodes that `XPath::evaluate` of `sxd_xpath` finds from the node of an
/// evaluation, in document order, each with its string value. An evaluation is
/// opaque, so which nodes they are is left unsaid.
#[verifier::external_body]
fn nodes_found<'c, 'd>(context: &sxd_xpath::context::Evaluation<'c, 'd>, xpath: &str) -> (r: Vec<
    (sxd_xpath::nodeset::Node<'d>, String),
>) {
    let built = sxd_xpath::Factory::new().build(xpath).ok().flatten();
    match built.map(|x| x.evaluate(&sxd_xpath::Context::new(), context.node)) {
        Some(Ok(sxd_xpath::Value::Nodeset(found))) => {
            found.document_order().into_iter().map(|n| (n, n.string_value())).collect()
        },
        _ => Vec::new(),
    }
}

/// `Node::parent` of `sxd_xpath`. A node is opaque, so which one it is is left
/// unsaid.
#[verifier::external_body]
fn parent<'d>(node: &sxd_xpath::nodeset::Node<'d>) -> (r: Option<sxd_xpath::nodeset::Node<'d>>) {
    node.parent()
}

/// Nodes as a set of `sxd_xpath`, which is opaque.
#[verifier::external_body]
fn node_set<'d>(nodes: Vec<sxd_xpath::nodeset::Node<'d>>) -> (r: sxd_xpath::Value<'d>) {
    sxd_xpath::Value::Nodeset(nodes.into_iter().collect())
}

/// The XPath function `id`, which finds elements by their `id` attribute.
pub struct IdFunction;

impl sxd_xpath::function::Function for IdFunction {
    /// The elements of the document whose `id` attributes `matching_ids` picks
    /// for the argument; it takes one argument.
    fn evaluate<'c, 'd>(
        &self,
        context: &sxd_xpath::context::Evaluation<'c, 'd>,
        args: Vec<sxd_xpath::Value<'d>>,
    ) -> (r: Result<sxd_xpath::Value<'d>, sxd_xpath::function::Error>)
        ensures
            r is Ok <==> args.len() == 1,
    {
        let given = match exactly(args, 1) {
            Ok(given) => given,
            Err(e) => return Err(e),
        };
        let found = nodes_found(context, "//@id");
        let mut ids: Vec<String> = Vec::new();
        let mut k: usize = 0;
        while k < found.len()
            invariant
                k <= found.len(),
                ids.len() == k,
            decreases found.len() - k,
        {
            ids.push(copy(found[k].1.as_str()));
            k = k + 1;
        }
        let at = matching_ids(&value_texts(&given[0]), &ids);
        let mut matched: Vec<sxd_xpath::nodeset::Node<'d>> = Vec::new();
        let mut i: usize = 0;
        while i < at.len()
            invariant
                i <= at.len(),
                forall|j: int| 0 <= j < at.len() ==> #[trigger] at@[j] < found.len(),
            decreases at.len() - i,
        {
            if let Some(owner) = parent(&found[at[i]].0) {
                matched.push(owner);
            }
            i = i + 1;
        }
        Ok(node_set(matched))
    }
}

} // verus!
