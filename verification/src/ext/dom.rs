//! HTML documents, as the `scraper` crate parses them.

use vstd::prelude::*;

verus! {

/// The tree that `scraper` builds for a document.
#[verifier::external_type_specification]
#[verifier::external_body]
pub struct ExHtml(scraper::Html);

/// An attribute: its namespace, its local name and its value.
pub struct AttrV {
    pub space: Seq<char>,
    pub name: Seq<char>,
    pub value: Seq<char>,
}

/// What a node is, and the positions of its children.
pub struct NodeV {
    pub kind: KindV,
    pub children: Seq<int>,
}

pub enum KindV {
    Text(Seq<char>),
    Element(Seq<AttrV>),
    Other,
}

pub struct Attr {
    pub space: String,
    pub name: String,
    pub value: String,
}

pub enum Kind {
    Text(String),
    Element(Vec<Attr>),
    Other,
}

pub struct DomNode {
    pub kind: Kind,
    pub children: Vec<usize>,
}

impl Attr {
    pub open spec fn model(self) -> AttrV {
        AttrV { space: self.space@, name: self.name@, value: self.value@ }
    }
}

pub open spec fn attr_models(v: Seq<Attr>) -> Seq<AttrV> {
    Seq::new(v.len(), |i: int| v[i].model())
}

pub open spec fn ints(v: Seq<usize>) -> Seq<int> {
    Seq::new(v.len(), |i: int| v[i] as int)
}

impl DomNode {
    pub open spec fn model(self) -> NodeV {
        NodeV {
            kind: match self.kind {
                Kind::Text(t) => KindV::Text(t@),
                Kind::Element(a) => KindV::Element(attr_models(a@)),
                Kind::Other => KindV::Other,
            },
            children: ints(self.children@),
        }
    }
}

pub open spec fn node_models(v: Seq<DomNode>) -> Seq<NodeV> {
    Seq::new(v.len(), |i: int| v[i].model())
}

/// The nodes of the document that `scraper` parses from `html`: those of the
/// document in its order, the document node first, and then those of each part
/// that parsing cut off from it. Every node stands before its children.
pub uninterp spec fn dom_of(html: Seq<char>) -> Seq<NodeV>;

/// Whether `scraper` reads `css` as a selector.
pub uninterp spec fn css_valid(css: Seq<char>) -> bool;

/// The elements parsed from `html` that match `css`, in the order in which they
/// were made. Elements below one that was cut off are among them.
pub uninterp spec fn css_matches(html: Seq<char>, css: Seq<char>) -> Seq<int>;

/// The descendants of element `node` that match `css`, in document order.
pub uninterp spec fn css_matches_under(html: Seq<char>, node: int, css: Seq<char>) -> Seq<int>;

/// The markup of element `node`, without its own tags.
pub uninterp spec fn inner_html_of(html: Seq<char>, node: int) -> Seq<char>;

/// The markup of element `node`, with its own tags.
pub uninterp spec fn outer_html_of(html: Seq<char>, node: int) -> Seq<char>;

/// The markup that the document parsed from `html` is written back as.
pub uninterp spec fn repaired_html_of(html: Seq<char>) -> Seq<char>;

pub open spec fn is_element(d: Seq<NodeV>, i: int) -> bool {
    0 <= i < d.len() && d[i].kind is Element
}

pub open spec fn all_elements(d: Seq<NodeV>, s: Seq<int>) -> bool {
    forall|k: int| 0 <= k < s.len() ==> is_element(d, #[trigger] s[k])
}

/// Every node stands before its children.
pub open spec fn tree_shape(d: Seq<NodeV>) -> bool {
    forall|i: int, k: int|
        #![trigger d[i].children[k]]
        0 <= i < d.len() && 0 <= k < d[i].children.len() ==> i < d[i].children[k] < d.len()
}

/// A parsed HTML document: its source, its nodes as plain values, and the tree
/// that selectors are matched in.
pub struct Document {
    source: String,
    nodes: Vec<DomNode>,
    tree: scraper::Html,
}

impl Document {
    /// The text that the document was parsed from.
    pub closed spec fn source(&self) -> Seq<char> {
        self.source@
    }

    /// The document's nodes.
    pub closed spec fn dom(&self) -> Seq<NodeV> {
        node_models(self.nodes@)
    }

    /// The nodes are those of the document, and the tree has its shape.
    pub open spec fn wf(&self) -> bool {
        self.dom() == dom_of(self.source()) && tree_shape(self.dom())
    }

    pub fn len(&self) -> (r: usize)
        ensures
            r == self.dom().len(),
    {
        self.nodes.len()
    }

    pub fn node(&self, i: usize) -> (r: &DomNode)
        requires
            i < self.dom().len(),
        ensures
            r.model() == self.dom()[i as int],
    {
        assert(node_models(self.nodes@)[i as int] == self.nodes@[i as int].model());
        &self.nodes[i]
    }
}

/// Parses an HTML document with `scraper::Html::parse_document`.
///
/// The nodes are those of the tree in document order, and then those below each
/// node that was cut off from it (as a frameset cuts off a body), so every node
/// has a smaller position than its children.
#[verifier::external_body]
pub fn parse_document(html: &str) -> (r: Document)
    ensures
        r.source() == html@,
        r.dom() == dom_of(html@),
        tree_shape(r.dom()),
{
    let tree = scraper::Html::parse_document(html);
    Document { source: html.to_string(), nodes: dom_nodes(&tree), tree }
}

/// The nodes of a `scraper` tree as plain values, one for one, with the positions
/// of their children.
#[verifier::external_body]
fn dom_nodes(tree: &scraper::Html) -> (r: Vec<DomNode>) {
    let tops = tree.tree.nodes().filter(|n| n.parent().is_none());
    let all: Vec<_> = tops.flat_map(|n| n.descendants()).collect();
    let at: std::collections::HashMap<_, usize> = all.iter().zip(0..).map(|(n, i)| (n.id(), i)).collect();
    all.iter().map(|n| DomNode {
        kind: node_kind(n.value()),
        children: n.children().map(|c| at[&c.id()]).collect(),
    }).collect()
}

/// A node of a `scraper` tree.
#[verifier::external_type_specification]
#[verifier::external_body]
pub struct ExNode(scraper::Node);

/// What a `scraper` node is, as a plain value, one for one.
#[verifier::external_body]
fn node_kind(node: &scraper::Node) -> (r: Kind) {
    match node {
        scraper::Node::Text(t) => Kind::Text(t.to_string()),
        scraper::Node::Element(e) => Kind::Element(attributes(e)),
        _ => Kind::Other,
    }
}

/// An element of a `scraper` tree.
#[verifier::external_type_specification]
#[verifier::external_body]
pub struct ExElement(scraper::node::Element);

/// The attributes of a `scraper` element as plain values, one for one.
#[verifier::external_body]
fn attributes(element: &scraper::node::Element) -> (r: Vec<Attr>) {
    element.attrs.iter().map(|(q, v)| Attr {
        space: q.ns.to_string(),
        name: q.local.to_string(),
        value: v.to_string(),
    }).collect()
}

/// `scraper::Selector::parse`: whether the text is a selector.
#[verifier::external_body]
pub(crate) fn css_is_valid(css: &str) -> (r: bool)
    ensures
        r == css_valid(css@),
{
    scraper::Selector::parse(css).is_ok()
}

/// `scraper::Html::select`: the elements that match a selector, in the order in
/// which they were made.
#[verifier::external_body]
pub(crate) fn css_select(doc: &Document, css: &str) -> (r: Vec<usize>)
    requires
        doc.wf(),
        css_valid(css@),
    ensures
        ints(r@) == css_matches(doc.source(), css@),
        all_elements(doc.dom(), ints(r@)),
{
    let selector = scraper::Selector::parse(css).unwrap();
    let tops = doc.tree.tree.nodes().filter(|n| n.parent().is_none());
    let all = tops.flat_map(|n| n.descendants());
    let at: std::collections::HashMap<_, usize> = all.zip(0..).map(|(n, i)| (n.id(), i)).collect();
    doc.tree.select(&selector).map(|e| at[&e.id()]).collect()
}

/// `scraper::ElementRef::select`: the descendants of an element that match a
/// selector, in document order.
#[verifier::external_body]
pub(crate) fn css_select_under(doc: &Document, node: usize, css: &str) -> (r: Vec<usize>)
    requires
        doc.wf(),
        is_element(doc.dom(), node as int),
        css_valid(css@),
    ensures
        ints(r@) == css_matches_under(doc.source(), node as int, css@),
        all_elements(doc.dom(), ints(r@)),
{
    let selector = scraper::Selector::parse(css).unwrap();
    let tops = doc.tree.tree.nodes().filter(|n| n.parent().is_none());
    let found = tops.flat_map(|n| n.descendants()).nth(node).unwrap();
    let element = scraper::ElementRef::wrap(found).unwrap();
    let at: std::collections::HashMap<_, usize> =
        element.descendants().zip(node..).map(|(n, i)| (n.id(), i)).collect();
    element.select(&selector).map(|e| at[&e.id()]).collect()
}

/// `scraper::ElementRef::inner_html`: the markup inside an element.
#[verifier::external_body]
pub(crate) fn inner_html(doc: &Document, node: usize) -> (r: String)
    requires
        doc.wf(),
        is_element(doc.dom(), node as int),
    ensures
        r@ == inner_html_of(doc.source(), node as int),
{
    let tops = doc.tree.tree.nodes().filter(|n| n.parent().is_none());
    let found = tops.flat_map(|n| n.descendants()).nth(node).unwrap();
    scraper::ElementRef::wrap(found).unwrap().inner_html()
}

/// `scraper::ElementRef::html`: the markup of an element with its own tags.
#[verifier::external_body]
pub(crate) fn outer_html(doc: &Document, node: usize) -> (r: String)
    requires
        doc.wf(),
        is_element(doc.dom(), node as int),
    ensures
        r@ == outer_html_of(doc.source(), node as int),
{
    let tops = doc.tree.tree.nodes().filter(|n| n.parent().is_none());
    let found = tops.flat_map(|n| n.descendants()).nth(node).unwrap();
    scraper::ElementRef::wrap(found).unwrap().html()
}

/// `scraper::Html::html`: the markup of a whole document.
#[verifier::external_body]
pub(crate) fn document_html(doc: &Document) -> (r: String)
    requires
        doc.wf(),
    ensures
        r@ == repaired_html_of(doc.source()),
{
    doc.tree.html()
}

} // verus!
