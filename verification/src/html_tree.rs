//! A tree of the bounded HTML subset that lex-babel's HTML export emits, plus
//! conversion from an HTML document string.
//!
//! The renderer only understands this subset; unknown elements are kept as
//! [`HtmlTag::Other`] and rendered as transparent containers so future
//! additions to the exporter degrade gracefully instead of disappearing.
use vstd::prelude::*;

use std::rc::Rc;

use markup5ever_rcdom::Node;

use crate::dom::{
    attrs_view, dom_tree, node_children, node_kind, parse_dom, parsed_document, share_node, MAX_HTML_BYTES,
    DomAttribute, DomHead, DomNodeKind, DomTree,
};
use crate::text::{has_token, str_equals, str_has_token, utf8_len};

verus! {

/// The element kinds the preview understands.
#[derive(Debug, Clone, Copy, PartialEq, Eq, Structural, Default)]
pub enum HtmlTag {
    H1,
    H2,
    H3,
    H4,
    H5,
    H6,
    P,
    Ul,
    Ol,
    Li,
    Dl,
    Dt,
    Dd,
    Blockquote,
    Pre,
    Code,
    Table,
    Thead,
    Tbody,
    Tr,
    Th,
    Td,
    Figure,
    Figcaption,
    Img,
    A,
    Em,
    Strong,
    Span,
    Div,
    Section,
    Header,
    Hr,
    Br,
    #[default]
    Other,
}

/// The tag that an element's local name stands for.
pub open spec fn tag_for_name(name: Seq<char>) -> HtmlTag {
    if name == "h1"@ {
        HtmlTag::H1
    } else if name == "h2"@ {
        HtmlTag::H2
    } else if name == "h3"@ {
        HtmlTag::H3
    } else if name == "h4"@ {
        HtmlTag::H4
    } else if name == "h5"@ {
        HtmlTag::H5
    } else if name == "h6"@ {
        HtmlTag::H6
    } else if name == "p"@ {
        HtmlTag::P
    } else if name == "ul"@ {
        HtmlTag::Ul
    } else if name == "ol"@ {
        HtmlTag::Ol
    } else if name == "li"@ {
        HtmlTag::Li
    } else if name == "dl"@ {
        HtmlTag::Dl
    } else if name == "dt"@ {
        HtmlTag::Dt
    } else if name == "dd"@ {
        HtmlTag::Dd
    } else if name == "blockquote"@ {
        HtmlTag::Blockquote
    } else if name == "pre"@ {
        HtmlTag::Pre
    } else if name == "code"@ {
        HtmlTag::Code
    } else if name == "table"@ {
        HtmlTag::Table
    } else if name == "thead"@ {
        HtmlTag::Thead
    } else if name == "tbody"@ {
        HtmlTag::Tbody
    } else if name == "tr"@ {
        HtmlTag::Tr
    } else if name == "th"@ {
        HtmlTag::Th
    } else if name == "td"@ {
        HtmlTag::Td
    } else if name == "figure"@ {
        HtmlTag::Figure
    } else if name == "figcaption"@ {
        HtmlTag::Figcaption
    } else if name == "img"@ {
        HtmlTag::Img
    } else if name == "a"@ {
        HtmlTag::A
    } else if name == "em"@ {
        HtmlTag::Em
    } else if name == "strong"@ {
        HtmlTag::Strong
    } else if name == "span"@ {
        HtmlTag::Span
    } else if name == "div"@ {
        HtmlTag::Div
    } else if name == "section"@ {
        HtmlTag::Section
    } else if name == "header"@ {
        HtmlTag::Header
    } else if name == "hr"@ {
        HtmlTag::Hr
    } else if name == "br"@ {
        HtmlTag::Br
    } else {
        HtmlTag::Other
    }
}

/// The heading level of h1-h6, and `None` for every other tag.
pub open spec fn spec_heading_level(tag: HtmlTag) -> Option<u8> {
    match tag {
        HtmlTag::H1 => Some(1u8),
        HtmlTag::H2 => Some(2u8),
        HtmlTag::H3 => Some(3u8),
        HtmlTag::H4 => Some(4u8),
        HtmlTag::H5 => Some(5u8),
        HtmlTag::H6 => Some(6u8),
        _ => None,
    }
}

impl HtmlTag {
    /// Maps an element's local name to its tag; names outside the subset
    /// become [`HtmlTag::Other`].
    pub fn from_name(name: &str) -> (tag: Self)
        ensures
            tag == tag_for_name(name@),
    {
        if str_equals(name, "h1") {
            HtmlTag::H1
        } else if str_equals(name, "h2") {
            HtmlTag::H2
        } else if str_equals(name, "h3") {
            HtmlTag::H3
        } else if str_equals(name, "h4") {
            HtmlTag::H4
        } else if str_equals(name, "h5") {
            HtmlTag::H5
        } else if str_equals(name, "h6") {
            HtmlTag::H6
        } else if str_equals(name, "p") {
            HtmlTag::P
        } else if str_equals(name, "ul") {
            HtmlTag::Ul
        } else if str_equals(name, "ol") {
            HtmlTag::Ol
        } else if str_equals(name, "li") {
            HtmlTag::Li
        } else if str_equals(name, "dl") {
            HtmlTag::Dl
        } else if str_equals(name, "dt") {
            HtmlTag::Dt
        } else if str_equals(name, "dd") {
            HtmlTag::Dd
        } else if str_equals(name, "blockquote") {
            HtmlTag::Blockquote
        } else if str_equals(name, "pre") {
            HtmlTag::Pre
        } else if str_equals(name, "code") {
            HtmlTag::Code
        } else if str_equals(name, "table") {
            HtmlTag::Table
        } else if str_equals(name, "thead") {
            HtmlTag::Thead
        } else if str_equals(name, "tbody") {
            HtmlTag::Tbody
        } else if str_equals(name, "tr") {
            HtmlTag::Tr
        } else if str_equals(name, "th") {
            HtmlTag::Th
        } else if str_equals(name, "td") {
            HtmlTag::Td
        } else if str_equals(name, "figure") {
            HtmlTag::Figure
        } else if str_equals(name, "figcaption") {
            HtmlTag::Figcaption
        } else if str_equals(name, "img") {
            HtmlTag::Img
        } else if str_equals(name, "a") {
            HtmlTag::A
        } else if str_equals(name, "em") {
            HtmlTag::Em
        } else if str_equals(name, "strong") {
            HtmlTag::Strong
        } else if str_equals(name, "span") {
            HtmlTag::Span
        } else if str_equals(name, "div") {
            HtmlTag::Div
        } else if str_equals(name, "section") {
            HtmlTag::Section
        } else if str_equals(name, "header") {
            HtmlTag::Header
        } else if str_equals(name, "hr") {
            HtmlTag::Hr
        } else if str_equals(name, "br") {
            HtmlTag::Br
        } else {
            HtmlTag::Other
        }
    }

    /// Heading level for h1-h6, if this is a heading tag.
    pub fn heading_level(self) -> (level: Option<u8>)
        ensures
            level == spec_heading_level(self),
            level matches Some(k) ==> 1 <= k <= 6,
    {
        match self {
            HtmlTag::H1 => Some(1),
            HtmlTag::H2 => Some(2),
            HtmlTag::H3 => Some(3),
            HtmlTag::H4 => Some(4),
            HtmlTag::H5 => Some(5),
            HtmlTag::H6 => Some(6),
            _ => None,
        }
    }
}


/// An element of the subset, with the attributes the renderer reads.
#[derive(Debug, Default)]
pub struct HtmlElement {
    pub tag: HtmlTag,
    pub class: Option<String>,
    pub href: Option<String>,
    pub src: Option<String>,
    pub alt: Option<String>,
    pub data_language: Option<String>,
    pub children: Vec<HtmlNode>,
}

/// A node of the subset: character data or an element.
#[derive(Debug)]
pub enum HtmlNode {
    Text(String),
    Element(HtmlElement),
}

/// The mathematical value of an [`HtmlElement`].
pub struct HtmlElementView {
    pub tag: HtmlTag,
    pub class: Option<Seq<char>>,
    pub href: Option<Seq<char>>,
    pub src: Option<Seq<char>>,
    pub alt: Option<Seq<char>>,
    pub data_language: Option<Seq<char>>,
    pub children: Seq<HtmlNodeView>,
}

/// The mathematical value of an [`HtmlNode`].
pub enum HtmlNodeView {
    Text(Seq<char>),
    Element(HtmlElementView),
}

/// The characters of an optional string.
pub open spec fn opt_text(value: Option<String>) -> Option<Seq<char>> {
    match value {
        Some(s) => Some(s@),
        None => None,
    }
}

/// The value of one node.
pub open spec fn node_view(node: HtmlNode) -> HtmlNodeView
    decreases node,
{
    match node {
        HtmlNode::Text(text) => HtmlNodeView::Text(text@),
        HtmlNode::Element(element) => HtmlNodeView::Element(element_view(element)),
    }
}

/// The value of one element, children included.
pub open spec fn element_view(element: HtmlElement) -> HtmlElementView
    decreases element,
{
    HtmlElementView {
        tag: element.tag,
        class: opt_text(element.class),
        href: opt_text(element.href),
        src: opt_text(element.src),
        alt: opt_text(element.alt),
        data_language: opt_text(element.data_language),
        children: nodes_view(element.children@),
    }
}

/// The values of a sequence of nodes, in order.
pub open spec fn nodes_view(nodes: Seq<HtmlNode>) -> Seq<HtmlNodeView>
    decreases nodes,
{
    if nodes.len() == 0 {
        Seq::empty()
    } else {
        nodes_view(nodes.subrange(0, nodes.len() - 1)).push(node_view(nodes[nodes.len() - 1]))
    }
}

impl View for HtmlNode {
    type V = HtmlNodeView;

    open spec fn view(&self) -> HtmlNodeView {
        node_view(*self)
    }
}

impl View for HtmlElement {
    type V = HtmlElementView;

    open spec fn view(&self) -> HtmlElementView {
        element_view(*self)
    }
}

/// Appending a node appends its value.
pub proof fn lemma_nodes_view_push(nodes: Seq<HtmlNode>, node: HtmlNode)
    ensures
        nodes_view(nodes.push(node)) == nodes_view(nodes).push(node_view(node)),
{
    assert(nodes.push(node).subrange(0, nodes.len() as int) =~= nodes);
}

/// A copy of an optional string.
fn clone_text(value: &Option<String>) -> (copy: Option<String>)
    ensures
        opt_text(copy) == opt_text(*value),
{
    match value {
        Some(s) => Some(s.clone()),
        None => None,
    }
}

/// A deep copy of a node.
fn clone_node(node: &HtmlNode) -> (copy: HtmlNode)
    ensures
        node_view(copy) == node_view(*node),
    decreases *node,
{
    match node {
        HtmlNode::Text(text) => HtmlNode::Text(text.clone()),
        HtmlNode::Element(element) => HtmlNode::Element(clone_element(element)),
    }
}

/// A deep copy of an element.
fn clone_element(element: &HtmlElement) -> (copy: HtmlElement)
    ensures
        element_view(copy) == element_view(*element),
    decreases *element,
{
    HtmlElement {
        tag: element.tag,
        class: clone_text(&element.class),
        href: clone_text(&element.href),
        src: clone_text(&element.src),
        alt: clone_text(&element.alt),
        data_language: clone_text(&element.data_language),
        children: clone_nodes(&element.children),
    }
}

/// Deep copies of a sequence of nodes.
fn clone_nodes(nodes: &Vec<HtmlNode>) -> (copies: Vec<HtmlNode>)
    ensures
        nodes_view(copies@) == nodes_view(nodes@),
    decreases *nodes,
{
    let mut copies: Vec<HtmlNode> = Vec::new();
    let mut i: usize = 0;
    while i < nodes.len()
        invariant
            i <= nodes@.len(),
            nodes_view(copies@) == nodes_view(nodes@.subrange(0, i as int)),
        decreases nodes@.len() - i,
    {
        let copy = clone_node(&nodes[i]);
        proof {
            lemma_nodes_view_push(copies@, copy);
            assert(nodes@.subrange(0, i as int + 1).subrange(0, i as int) =~= nodes@.subrange(0, i as int));
        }
        copies.push(copy);
        i = i + 1;
    }
    assert(nodes@.subrange(0, nodes@.len() as int) =~= nodes@);
    copies
}

impl Clone for HtmlNode {
    fn clone(&self) -> (copy: Self)
        ensures
            node_view(copy) == node_view(*self),
    {
        clone_node(self)
    }
}

impl Clone for HtmlElement {
    fn clone(&self) -> (copy: Self)
        ensures
            element_view(copy) == element_view(*self),
    {
        clone_element(self)
    }
}

impl HtmlElement {
    /// Whether `class` is one of the whitespace-separated names in the
    /// element's class attribute.
    pub fn has_class(&self, class: &str) -> (has: bool)
        ensures
            has == (self.class matches Some(classes) && has_token(classes@, class@)),
    {
        match &self.class {
            Some(classes) => str_has_token(classes.as_str(), class),
            None => false,
        }
    }
}


/// The tree that a handle to a DOM node heads.
pub open spec fn tree_of(node: &Rc<Node>) -> DomTree {
    dom_tree(**node)
}

/// Elements whose subtree is not content: what the exporter emits in
/// `<head>`, skipped defensively should it ever appear in the body.
pub open spec fn is_head_only_name(name: Seq<char>) -> bool {
    name == "style"@ || name == "script"@ || name == "meta"@ || name == "link"@ || name == "title"@
}

/// The value of the last attribute named `key`, if any.
pub open spec fn attr_value(attrs: Seq<(Seq<char>, Seq<char>)>, key: Seq<char>) -> Option<
    Seq<char>,
>
    decreases attrs.len(),
{
    if attrs.len() == 0 {
        None
    } else if attrs[attrs.len() - 1].0 == key {
        Some(attrs[attrs.len() - 1].1)
    } else {
        attr_value(attrs.subrange(0, attrs.len() - 1), key)
    }
}

/// The element of the subset that a DOM element converts to, without its
/// children.
pub open spec fn element_shell(
    name: Seq<char>,
    attrs: Seq<(Seq<char>, Seq<char>)>,
    children: Seq<HtmlNodeView>,
) -> HtmlElementView {
    HtmlElementView {
        tag: tag_for_name(name),
        class: attr_value(attrs, "class"@),
        href: attr_value(attrs, "href"@),
        src: attr_value(attrs, "src"@),
        alt: attr_value(attrs, "alt"@),
        data_language: attr_value(attrs, "data-language"@),
        children,
    }
}

/// What one DOM node converts to: text stays text, an element becomes an
/// element of the subset with its children converted (unless it is a
/// head-only element, which is dropped with its subtree), and every other
/// kind of node is dropped.
pub open spec fn convert_tree(tree: DomTree) -> Seq<HtmlNodeView>
    decreases tree,
{
    match tree.head {
        DomHead::Text { contents } => seq![HtmlNodeView::Text(contents)],
        DomHead::Element { name, attrs } => if is_head_only_name(name) {
            Seq::empty()
        } else {
            seq![HtmlNodeView::Element(element_shell(name, attrs, convert_trees(tree.children)))]
        },
        _ => Seq::empty(),
    }
}

/// The conversions of a sequence of DOM nodes, concatenated in order.
pub open spec fn convert_trees(trees: Seq<DomTree>) -> Seq<HtmlNodeView>
    decreases trees,
{
    if trees.len() == 0 {
        Seq::empty()
    } else {
        convert_trees(trees.subrange(0, trees.len() - 1)) + convert_tree(trees[trees.len() - 1])
    }
}

/// The first element named `name` in a depth-first, pre-order walk.
pub open spec fn find_in_tree(tree: DomTree, name: Seq<char>) -> Option<DomTree>
    decreases tree,
{
    if tree.head matches DomHead::Element { name: n, .. } && n == name {
        Some(tree)
    } else {
        find_in_trees(tree.children, name)
    }
}

/// The first element named `name` in a sequence of trees, walked in order.
pub open spec fn find_in_trees(trees: Seq<DomTree>, name: Seq<char>) -> Option<DomTree>
    decreases trees,
{
    if trees.len() == 0 {
        None
    } else {
        match find_in_trees(trees.subrange(0, trees.len() - 1), name) {
            Some(found) => Some(found),
            None => find_in_tree(trees[trees.len() - 1], name),
        }
    }
}

/// Once a prefix of a sequence holds a match, the whole sequence yields that
/// same match.
proof fn lemma_find_in_prefix(trees: Seq<DomTree>, k: int, name: Seq<char>)
    requires
        0 <= k <= trees.len(),
        find_in_trees(trees.subrange(0, k), name) is Some,
    ensures
        find_in_trees(trees, name) == find_in_trees(trees.subrange(0, k), name),
    decreases trees.len() - k,
{
    if k < trees.len() {
        let shorter = trees.subrange(0, trees.len() - 1);
        assert(shorter.subrange(0, k) =~= trees.subrange(0, k));
        lemma_find_in_prefix(shorter, k, name);
    } else {
        assert(trees.subrange(0, k) =~= trees);
    }
}

/// The converted children of a document's first `<body>`, or `None` when it
/// has none.
pub open spec fn body_nodes_of(document: DomTree) -> Option<Seq<HtmlNodeView>> {
    match find_in_tree(document, "body"@) {
        Some(body) => Some(convert_trees(body.children)),
        None => None,
    }
}

/// Why an HTML document could not be converted.
#[derive(Debug, Clone, Copy, PartialEq, Eq, Structural)]
pub enum HtmlDocumentError {
    /// The parsed document has no `<body>` element.
    MissingBody,
}

impl HtmlDocumentError {
    /// The message the preview shows for this error.
    pub fn message(&self) -> (text: String)
        ensures
            text@ == "HTML document has no body"@,
    {
        match self {
            HtmlDocumentError::MissingBody => String::from_str("HTML document has no body"),
        }
    }
}

/// Whether an element's local name is one of the head-only names.
fn is_head_only(name: &str) -> (skip: bool)
    ensures
        skip == is_head_only_name(name@),
{
    str_equals(name, "style") || str_equals(name, "script") || str_equals(name, "meta")
        || str_equals(name, "link") || str_equals(name, "title")
}

/// The attribute names the conversion reads are pairwise different.
proof fn lemma_attribute_keys_distinct()
    ensures
        "class"@ != "href"@,
        "class"@ != "src"@,
        "class"@ != "alt"@,
        "class"@ != "data-language"@,
        "href"@ != "src"@,
        "href"@ != "alt"@,
        "href"@ != "data-language"@,
        "src"@ != "alt"@,
        "src"@ != "data-language"@,
        "alt"@ != "data-language"@,
{
    reveal_strlit("class");
    reveal_strlit("href");
    reveal_strlit("src");
    reveal_strlit("alt");
    reveal_strlit("data-language");
    assert("class"@[0] != "href"@[0]);
    assert("class"@[0] != "src"@[0]);
    assert("class"@[0] != "alt"@[0]);
    assert("class"@[0] != "data-language"@[0]);
    assert("href"@[0] != "src"@[0]);
    assert("href"@[0] != "alt"@[0]);
    assert("href"@[0] != "data-language"@[0]);
    assert("src"@[0] != "alt"@[0]);
    assert("src"@[0] != "data-language"@[0]);
    assert("alt"@[0] != "data-language"@[0]);
}

/// The element a DOM element converts to, before its children are added.
fn element_from_attributes(tag: HtmlTag, attrs: &Vec<DomAttribute>) -> (element: HtmlElement)
    ensures
        element.tag == tag,
        element.children@.len() == 0,
        opt_text(element.class) == attr_value(attrs_view(attrs@), "class"@),
        opt_text(element.href) == attr_value(attrs_view(attrs@), "href"@),
        opt_text(element.src) == attr_value(attrs_view(attrs@), "src"@),
        opt_text(element.alt) == attr_value(attrs_view(attrs@), "alt"@),
        opt_text(element.data_language) == attr_value(attrs_view(attrs@), "data-language"@),
{
    let mut class: Option<String> = None;
    let mut href: Option<String> = None;
    let mut src: Option<String> = None;
    let mut alt: Option<String> = None;
    let mut data_language: Option<String> = None;
    let ghost all = attrs_view(attrs@);
    let mut i: usize = 0;
    while i < attrs.len()
        invariant
            i <= attrs@.len(),
            all == attrs_view(attrs@),
            opt_text(class) == attr_value(all.subrange(0, i as int), "class"@),
            opt_text(href) == attr_value(all.subrange(0, i as int), "href"@),
            opt_text(src) == attr_value(all.subrange(0, i as int), "src"@),
            opt_text(alt) == attr_value(all.subrange(0, i as int), "alt"@),
            opt_text(data_language) == attr_value(all.subrange(0, i as int), "data-language"@),
        decreases attrs@.len() - i,
    {
        let attr = &attrs[i];
        proof {
            lemma_attribute_keys_distinct();
        }
        let ghost prefix = all.subrange(0, i as int + 1);
        assert(prefix.subrange(0, i as int) =~= all.subrange(0, i as int));
        assert(prefix[i as int] == (attr.name@, attr.value@));
        let name = attr.name.as_str();
        if str_equals(name, "class") {
            class = Some(attr.value.clone());
        } else if str_equals(name, "href") {
            href = Some(attr.value.clone());
        } else if str_equals(name, "src") {
            src = Some(attr.value.clone());
        } else if str_equals(name, "alt") {
            alt = Some(attr.value.clone());
        } else if str_equals(name, "data-language") {
            data_language = Some(attr.value.clone());
        }
        i = i + 1;
    }
    assert(all.subrange(0, attrs@.len() as int) =~= all);
    HtmlElement { tag, class, href, src, alt, data_language, children: Vec::new() }
}

/// The first element named `tag_name` below `node`, itself included, in a
/// depth-first pre-order walk.
fn find_element(node: &Rc<Node>, tag_name: &str) -> (found: Option<Rc<Node>>)
    ensures
        match find_in_tree(dom_tree(**node), tag_name@) {
            Some(tree) => found matches Some(f) && dom_tree(*f) == tree,
            None => found is None,
        },
    decreases dom_tree(**node),
{
    let kind = node_kind(node);
    if let DomNodeKind::Element { name, .. } = &kind {
        if str_equals(name.as_str(), tag_name) {
            return Some(share_node(node));
        }
    }
    let children = node_children(node);
    let ghost trees = tree_of(node).children;
    let mut i: usize = 0;
    while i < children.len()
        invariant
            children@.len() == trees.len(),
            trees == dom_tree(**node).children,
            forall|j: int| 0 <= j < children@.len() ==> dom_tree(*#[trigger] children@[j]) == trees[j],
            i <= children@.len(),
            !(dom_tree(**node).head matches DomHead::Element { name: n, .. } && n == tag_name@),
            find_in_trees(trees.subrange(0, i as int), tag_name@) is None,
        decreases children@.len() - i,
    {
        let ghost prefix = trees.subrange(0, i as int + 1);
        assert(prefix.subrange(0, i as int) =~= trees.subrange(0, i as int));
        assert(prefix[i as int] == trees[i as int]);
        let found = find_element(&children[i], tag_name);
        if found.is_some() {
            proof {
                lemma_find_in_prefix(trees, i as int + 1, tag_name@);
            }
            return found;
        }
        i = i + 1;
    }
    assert(trees.subrange(0, children@.len() as int) =~= trees);
    None
}

/// The converted children of a DOM node, in document order.
fn convert_children(node: &Rc<Node>) -> (nodes: Vec<HtmlNode>)
    ensures
        nodes_view(nodes@) == convert_trees(dom_tree(**node).children),
    decreases dom_tree(**node),
{
    let children = node_children(node);
    let ghost trees = tree_of(node).children;
    let mut nodes: Vec<HtmlNode> = Vec::new();
    let mut i: usize = 0;
    while i < children.len()
        invariant
            children@.len() == trees.len(),
            trees == dom_tree(**node).children,
            forall|j: int| 0 <= j < children@.len() ==> dom_tree(*#[trigger] children@[j]) == trees[j],
            i <= children@.len(),
            nodes_view(nodes@) == convert_trees(trees.subrange(0, i as int)),
        decreases children@.len() - i,
    {
        let ghost prefix = trees.subrange(0, i as int + 1);
        assert(prefix.subrange(0, i as int) =~= trees.subrange(0, i as int));
        assert(prefix[i as int] == trees[i as int]);
        let child = &children[i];
        let kind = node_kind(child);
        let ghost head = kind@;
        assert(head == trees[i as int].head);
        match kind {
            DomNodeKind::Text { contents } => {
                let node = HtmlNode::Text(contents);
                proof {
                    lemma_nodes_view_push(nodes@, node);
                }
                nodes.push(node);
            },
            DomNodeKind::Element { name, attrs } => {
                if !is_head_only(name.as_str()) {
                    let mut element = element_from_attributes(HtmlTag::from_name(name.as_str()), &attrs);
                    element.children = convert_children(child);
                    let node = HtmlNode::Element(element);
                    proof {
                        lemma_nodes_view_push(nodes@, node);
                    }
                    nodes.push(node);
                }
            },
            _ => {},
        }
        assert(convert_trees(prefix) == convert_trees(trees.subrange(0, i as int)) + convert_tree(trees[i as int]));
        i = i + 1;
    }
    assert(trees.subrange(0, children@.len() as int) =~= trees);
    nodes
}

/// The converted children of the first `<body>` of a parsed document.
pub fn document_body_nodes(document: &Rc<Node>) -> (nodes: Result<Vec<HtmlNode>, HtmlDocumentError>)
    ensures
        match body_nodes_of(dom_tree(**document)) {
            Some(expected) => nodes matches Ok(n) && nodes_view(n@) == expected,
            None => nodes matches Err(HtmlDocumentError::MissingBody),
        },
{
    match find_element(document, "body") {
        Some(body) => Ok(convert_children(&body)),
        None => Err(HtmlDocumentError::MissingBody),
    }
}

/// Parses an HTML document of at most [`MAX_HTML_BYTES`] bytes and returns
/// the converted children of `<body>`.
pub fn parse_html_document(html: &str) -> (nodes: Result<Vec<HtmlNode>, HtmlDocumentError>)
    requires
        utf8_len(html@) <= MAX_HTML_BYTES,
    ensures
        match body_nodes_of(parsed_document(html@)) {
            Some(expected) => nodes matches Ok(n) && nodes_view(n@) == expected,
            None => nodes matches Err(HtmlDocumentError::MissingBody),
        },
{
    let document = parse_dom(html);
    document_body_nodes(&document)
}


/// The local name of the heading element of `level`: "h1" to "h6".
pub open spec fn heading_name(level: u8) -> Seq<char> {
    if level == 1 {
        "h1"@
    } else if level == 2 {
        "h2"@
    } else if level == 3 {
        "h3"@
    } else if level == 4 {
        "h4"@
    } else if level == 5 {
        "h5"@
    } else {
        "h6"@
    }
}

/// A name converts to a heading tag exactly when it is "h1" to "h6", and
/// the tag's level is the digit of the name.
pub proof fn lemma_heading_tags_come_from_heading_names(name: Seq<char>)
    ensures
        spec_heading_level(tag_for_name(name)) matches Some(level) ==> 1 <= level <= 6 && name
            == heading_name(level),
        forall|level: u8| 1 <= level <= 6 && name == heading_name(level) ==> spec_heading_level(tag_for_name(name)) == Some(level),
{
    reveal_strlit("h1");
    reveal_strlit("h2");
    reveal_strlit("h3");
    reveal_strlit("h4");
    reveal_strlit("h5");
    reveal_strlit("h6");
    assert("h1"@[1] != "h2"@[1]);
    assert("h1"@[1] != "h3"@[1]);
    assert("h1"@[1] != "h4"@[1]);
    assert("h1"@[1] != "h5"@[1]);
    assert("h1"@[1] != "h6"@[1]);
    assert("h2"@[1] != "h3"@[1]);
    assert("h2"@[1] != "h4"@[1]);
    assert("h2"@[1] != "h5"@[1]);
    assert("h2"@[1] != "h6"@[1]);
    assert("h3"@[1] != "h4"@[1]);
    assert("h3"@[1] != "h5"@[1]);
    assert("h3"@[1] != "h6"@[1]);
    assert("h4"@[1] != "h5"@[1]);
    assert("h4"@[1] != "h6"@[1]);
    assert("h5"@[1] != "h6"@[1]);
}

/// Unknown elements are kept: an element that is not head-only converts to
/// exactly one element of the subset, tagged by its name ([`HtmlTag::Other`]
/// for a name outside the subset), with the attributes read and its
/// children converted in turn. Text is kept as text.
pub proof fn lemma_elements_and_text_are_kept(tree: DomTree)
    ensures
        tree.head matches DomHead::Element { name, attrs } ==> (!is_head_only_name(name) ==> convert_tree(tree)
            == seq![HtmlNodeView::Element(element_shell(name, attrs, convert_trees(tree.children)))]),
        tree.head matches DomHead::Text { contents } ==> convert_tree(tree) == seq![HtmlNodeView::Text(contents)],
{
}

/// Head-only elements (`style`, `script`, `meta`, `link`, `title`) are
/// dropped with everything inside them, as are doctypes, comments and
/// processing instructions.
pub proof fn lemma_non_content_is_dropped(tree: DomTree)
    ensures
        tree.head matches DomHead::Element { name, .. } ==> (is_head_only_name(name) ==> convert_tree(tree).len() == 0),
        tree.head is Other ==> convert_tree(tree).len() == 0,
        tree.head is Document ==> convert_tree(tree).len() == 0,
{
}

/// Converting a sequence converts each node in turn: the result of a
/// concatenation is the concatenation of the results.
pub proof fn lemma_convert_trees_concat(a: Seq<DomTree>, b: Seq<DomTree>)
    ensures
        convert_trees(a + b) == convert_trees(a) + convert_trees(b),
    decreases b.len(),
{
    if b.len() == 0 {
        assert(a + b =~= a);
        assert(convert_trees(a) + convert_trees(b) =~= convert_trees(a));
    } else {
        let shorter = b.subrange(0, b.len() - 1);
        lemma_convert_trees_concat(a, shorter);
        assert((a + b).subrange(0, (a + b).len() - 1) =~= a + shorter);
        assert((a + b)[(a + b).len() - 1] == b[b.len() - 1]);
        assert(convert_trees(a + b) =~= convert_trees(a) + convert_trees(b));
    }
}


/// Only the five head-only names `style`, `script`, `meta`, `link` and
/// `title` are dropped: an element of any other name converts to exactly
/// one element, tagged by its name, whose children are its own children
/// converted.
pub proof fn lemma_only_head_only_names_are_dropped(tree: DomTree)
    requires
        tree.head matches DomHead::Element { name, .. } && name != "style"@ && name != "script"@
            && name != "meta"@ && name != "link"@ && name != "title"@,
    ensures
        convert_tree(tree).len() == 1,
        convert_tree(tree)[0] matches HtmlNodeView::Element(element) && element.tag == tag_for_name(
            tree.head->name,
        ) && element.children == convert_trees(tree.children),
{
}

} // verus!
