//! The parsed HTML document as html5ever's reference-counted DOM holds it,
//! and the trusted reads that the conversion makes of it.
//!
//! A node of that DOM is modelled by [`DomTree`]: what kind of node it is
//! (with the element's local name and attributes, or the text), and the
//! trees of its children in document order.
use std::rc::Rc;

use html5ever::driver::ParseOpts;
use html5ever::parse_document;
use html5ever::tendril::TendrilSink;
use html5ever::tree_builder::TreeBuilderOpts;
use markup5ever_rcdom::{Node, NodeData, RcDom};
use vstd::prelude::*;

use crate::text::{byte_len, lemma_utf8_len_push, push_char, utf8_len};

verus! {

/// A DOM node as html5ever's reference-counted DOM defines it.
#[verifier::external_type_specification]
#[verifier::external_body]
pub struct ExDomNode(markup5ever_rcdom::Node);

/// What kind of node a DOM node is.
pub enum DomHead {
    /// The document root.
    Document,
    /// An element, with its local name and its attributes (local name and
    /// value) in document order.
    Element { name: Seq<char>, attrs: Seq<(Seq<char>, Seq<char>)> },
    /// Character data.
    Text { contents: Seq<char> },
    /// A doctype, comment or processing instruction.
    Other,
}

/// A DOM node together with the trees of its children.
pub struct DomTree {
    pub head: DomHead,
    pub children: Seq<DomTree>,
}

/// The tree that a node of the parsed DOM heads. The DOM is only ever read
/// after parsing, so a node's tree does not change while the library holds
/// it.
pub uninterp spec fn dom_tree(node: Node) -> DomTree;

/// The document tree that html5ever builds from an HTML string, parsed as a
/// full document with the doctype dropped.
pub uninterp spec fn parsed_document(html: Seq<char>) -> DomTree;

/// One attribute of an element: its local name and its value.
pub struct DomAttribute {
    pub name: String,
    pub value: String,
}

/// What kind of node a DOM node is, as plain values.
pub enum DomNodeKind {
    Document,
    Element { name: String, attrs: Vec<DomAttribute> },
    Text { contents: String },
    Other,
}

/// The (name, value) pairs of a list of attributes.
pub open spec fn attrs_view(attrs: Seq<DomAttribute>) -> Seq<(Seq<char>, Seq<char>)> {
    attrs.map_values(|a: DomAttribute| (a.name@, a.value@))
}

impl View for DomNodeKind {
    type V = DomHead;

    open spec fn view(&self) -> DomHead {
        match self {
            DomNodeKind::Document => DomHead::Document,
            DomNodeKind::Element { name, attrs } => DomHead::Element {
                name: name@,
                attrs: attrs_view(attrs@),
            },
            DomNodeKind::Text { contents } => DomHead::Text { contents: contents@ },
            DomNodeKind::Other => DomHead::Other,
        }
    }
}

/// The characters of a sequence of strings, joined in order.
pub open spec fn joined(chunks: Seq<String>) -> Seq<char>
    decreases chunks.len(),
{
    if chunks.len() == 0 {
        Seq::empty()
    } else {
        joined(chunks.drop_last()) + chunks.last()@
    }
}

/// The largest chunk of input, in bytes, that the parser is fed at once.
pub const PARSE_CHUNK_BYTES: usize = 4096;

/// The longest HTML, in bytes, that the parser takes: a third of
/// `u32::MAX`. html5ever keeps each text node, comment, attribute value and
/// token in one tendril, whose length is a `u32`; the parse can write up to
/// three bytes for one byte of input (U+0000 becomes U+FFFD), so under this
/// bound no tendril can outgrow its length.
pub const MAX_HTML_BYTES: usize = 0x5555_5555;

/// Parses the HTML that `chunks` hold with html5ever (`parse_document` into
/// an `RcDom`, with `drop_doctype` set), feeding it the chunks one after
/// another (`TendrilSink::from_iter`), and returns the document node.
/// Each chunk becomes one tendril (at most `u32::MAX` bytes), and the whole
/// input is at most [`MAX_HTML_BYTES`], so that no tendril the parse builds
/// exceeds `u32::MAX` bytes.
/// Claimed: the document node heads the tree that html5ever builds from the
/// joined text, `parsed_document(joined(chunks@))`; html5ever takes its
/// input as a stream, so where it is cut into chunks does not change the
/// tree.
#[verifier::external_body]
pub(crate) fn parse_dom_chunks(chunks: Vec<String>) -> (document: Rc<Node>)
    requires
        forall|i: int| 0 <= i < chunks@.len() ==> utf8_len(#[trigger] chunks@[i]@) <= u32::MAX,
        utf8_len(joined(chunks@)) <= MAX_HTML_BYTES,
    ensures
        dom_tree(*document) == parsed_document(joined(chunks@)),
{
    let options = ParseOpts {
        tree_builder: TreeBuilderOpts { drop_doctype: true, ..Default::default() },
        ..Default::default()
    };
    parse_document(RcDom::default(), options).from_iter(chunks).document
}

/// Cuts `html` into chunks of at most [`PARSE_CHUNK_BYTES`] bytes, each
/// ending on a character boundary, that join to `html`.
pub(crate) fn split_into_chunks(html: &str) -> (chunks: Vec<String>)
    ensures
        joined(chunks@) == html@,
        forall|i: int| 0 <= i < chunks@.len() ==> utf8_len(#[trigger] chunks@[i]@) <= PARSE_CHUNK_BYTES,
{
    let mut chunks: Vec<String> = Vec::new();
    let mut current = String::new();
    let mut current_len: usize = 0;
    assert(vstd::utf8::encode_utf8(Seq::<char>::empty()) =~= Seq::<u8>::empty());
    for c in it: html.chars()
        invariant
            it.seq() == html@,
            joined(chunks@) + current@ == html@.take(it.index() as int),
            current_len == utf8_len(current@),
            current_len < PARSE_CHUNK_BYTES - 4,
            forall|i: int| 0 <= i < chunks@.len() ==> utf8_len(#[trigger] chunks@[i]@) <= PARSE_CHUNK_BYTES,
    {
        let ghost index = it.index() as int;
        let ghost prefix = joined(chunks@);
        let ghost old_current = current@;
        assert(html@.take(index + 1) =~= html@.take(index).push(c));
        proof {
            lemma_utf8_len_push(current@, c);
        }
        push_char(&mut current, c);
        current_len = byte_len(&current);
        assert(prefix + current@ =~= (prefix + old_current).push(c));
        if current_len >= PARSE_CHUNK_BYTES - 4 {
            let ghost before = chunks@;
            let mut full = String::new();
            std::mem::swap(&mut full, &mut current);
            chunks.push(full);
            assert(chunks@.drop_last() =~= before);
            assert(joined(chunks@) + current@ =~= html@.take(index + 1));
            current_len = 0;
        }
    }
    if current_len > 0 {
        let ghost before = chunks@;
        chunks.push(current);
        assert(chunks@.drop_last() =~= before);
    } else {
        assert(current@.len() == 0) by {
            if current@.len() > 0 {
                lemma_utf8_len_push(current@.drop_last(), current@.last());
                assert(current@.drop_last().push(current@.last()) =~= current@);
            }
        }
        assert(joined(chunks@) =~= joined(chunks@) + current@);
    }
    assert(html@.take(html@.len() as int) =~= html@);
    chunks
}

/// Parses `html` with html5ever, fed in chunks of at most
/// [`PARSE_CHUNK_BYTES`] bytes, and returns the document node.
pub(crate) fn parse_dom(html: &str) -> (document: Rc<Node>)
    requires
        utf8_len(html@) <= MAX_HTML_BYTES,
    ensures
        dom_tree(*document) == parsed_document(html@),
{
    let chunks = split_into_chunks(html);
    parse_dom_chunks(chunks)
}

/// Reads the kind of a DOM node from its `NodeData`: the element's local
/// name and its attributes' local names and values, or the text node's
/// contents. Claimed: the result is the head of the node's tree.
#[verifier::external_body]
pub(crate) fn node_kind(node: &Rc<Node>) -> (kind: DomNodeKind)
    ensures
        kind@ == dom_tree(**node).head,
{
    match &node.data {
        NodeData::Document => DomNodeKind::Document,
        NodeData::Element { name, attrs, .. } => DomNodeKind::Element {
            name: name.local.to_string(),
            attrs: attrs.borrow().iter().map(|a| DomAttribute {
                name: a.name.local.to_string(),
                value: a.value.to_string(),
            }).collect(),
        },
        NodeData::Text { contents } => DomNodeKind::Text { contents: contents.borrow().to_string() },
        NodeData::Doctype { .. } => DomNodeKind::Other,
        NodeData::Comment { .. } => DomNodeKind::Other,
        NodeData::ProcessingInstruction { .. } => DomNodeKind::Other,
    }
}

/// Clones the handles in the node's `children` list. Claimed: they head the
/// trees of the node's children, in order.
#[verifier::external_body]
pub(crate) fn node_children(node: &Rc<Node>) -> (children: Vec<Rc<Node>>)
    ensures
        children@.len() == dom_tree(**node).children.len(),
        forall|i: int|
            0 <= i < children@.len() ==> dom_tree(*#[trigger] children@[i])
                == dom_tree(**node).children[i],
{
    node.children.borrow().clone()
}

/// `Rc::clone`: another handle to the same node.
#[verifier::external_body]
pub(crate) fn share_node(node: &Rc<Node>) -> (shared: Rc<Node>)
    ensures
        *shared == **node,
{
    Rc::clone(node)
}

} // verus!
