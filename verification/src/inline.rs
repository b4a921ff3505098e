//! Inline content: one string with styled runs and clickable link ranges,
//! built by flattening an element's inline children with HTML whitespace
//! semantics.
use vstd::prelude::*;

use crate::html_tree::{HtmlElement, HtmlNode, HtmlTag};
use crate::text::{
    byte_len, is_unicode_ws, is_whitespace_char, lemma_utf8_len_push, push_char, utf8_len,
};

verus! {

/// The inline styles that nest: bold, italic, code and link.
#[derive(Debug, Clone, Copy, PartialEq, Eq, Structural, Default)]
pub struct InlineStyle {
    pub bold: bool,
    pub italic: bool,
    pub code: bool,
    pub link: bool,
}

/// A byte range of the text drawn in one style.
#[derive(Debug, Clone, Copy, PartialEq, Eq, Structural)]
pub struct StyleRun {
    pub start: usize,
    pub end: usize,
    pub style: InlineStyle,
}

/// A byte range of the text that opens a URL when clicked.
#[derive(Debug)]
pub struct LinkRange {
    pub start: usize,
    pub end: usize,
    pub url: String,
}

/// The value of a [`LinkRange`].
pub struct LinkSpan {
    pub start: usize,
    pub end: usize,
    pub url: Seq<char>,
}

impl View for LinkRange {
    type V = LinkSpan;

    open spec fn view(&self) -> LinkSpan {
        LinkSpan { start: self.start, end: self.end, url: self.url@ }
    }
}

/// The value of accumulated inline content.
#[verifier::ext_equal]
pub struct InlineState {
    pub text: Seq<char>,
    pub runs: Seq<StyleRun>,
    pub links: Seq<LinkSpan>,
}

/// The values of a list of link ranges.
pub open spec fn links_view(links: Seq<LinkRange>) -> Seq<LinkSpan> {
    links.map_values(|l: LinkRange| l@)
}

/// Nothing accumulated yet.
pub open spec fn empty_state() -> InlineState {
    InlineState { text: Seq::empty(), runs: Seq::empty(), links: Seq::empty() }
}

/// Adds the byte range `start..end` in `style` to the runs: it extends the
/// last run when that run has the same style and ends at `start`, and is a
/// new run otherwise.
pub open spec fn extend_runs(runs: Seq<StyleRun>, start: usize, end: usize, style: InlineStyle) -> Seq<StyleRun> {
    if runs.len() > 0 && runs.last().style == style && runs.last().end == start {
        runs.update(runs.len() - 1, StyleRun { start: runs.last().start, end, style })
    } else {
        runs.push(StyleRun { start, end, style })
    }
}

/// Appends one character in `style`.
pub open spec fn append_char(state: InlineState, c: char, style: InlineStyle) -> InlineState {
    let text = state.text.push(c);
    InlineState {
        text,
        runs: extend_runs(state.runs, utf8_len(state.text) as usize, utf8_len(text) as usize, style),
        links: state.links,
    }
}

/// The text is empty or ends in a space or a line break.
pub open spec fn at_break(text: Seq<char>) -> bool {
    text.len() == 0 || text.last() == ' ' || text.last() == '\n'
}

/// Appends one character of source text: whitespace collapses to a single
/// space, and none is written at the start or right after a space or a line
/// break.
pub open spec fn push_text_char(state: InlineState, c: char, style: InlineStyle) -> InlineState {
    if is_unicode_ws(c) {
        if at_break(state.text) {
            state
        } else {
            append_char(state, ' ', style)
        }
    } else {
        append_char(state, c, style)
    }
}

/// Appends source text character by character.
pub open spec fn push_text_spec(state: InlineState, text: Seq<char>, style: InlineStyle) -> InlineState
    decreases text.len(),
{
    if text.len() == 0 {
        state
    } else {
        push_text_char(push_text_spec(state, text.drop_last(), style), text.last(), style)
    }
}

/// The style that the content of an element with `tag` is drawn in.
pub open spec fn style_within(style: InlineStyle, tag: HtmlTag) -> InlineStyle {
    match tag {
        HtmlTag::Strong => InlineStyle { bold: true, ..style },
        HtmlTag::Em => InlineStyle { italic: true, ..style },
        HtmlTag::Code => InlineStyle { code: true, ..style },
        HtmlTag::A => InlineStyle { link: true, ..style },
        _ => style,
    }
}

/// Flattens one node into the inline content.
pub open spec fn collect_node(node: HtmlNode, style: InlineStyle, state: InlineState) -> InlineState
    decreases node,
{
    match node {
        HtmlNode::Text(text) => push_text_spec(state, text@, style),
        HtmlNode::Element(element) => collect_element(element, style, state),
    }
}

/// Flattens one element: a line break is a newline, an image is its alt
/// text, anything else is its children in the element's style, and a link
/// with an `href` records the byte range its children wrote.
pub open spec fn collect_element(element: HtmlElement, style: InlineStyle, state: InlineState) -> InlineState
    decreases element,
{
    let inner = style_within(style, element.tag);
    if element.tag == HtmlTag::Br {
        append_char(state, '\n', inner)
    } else if element.tag == HtmlTag::Img {
        match element.alt {
            Some(alt) => push_text_spec(state, alt@, inner),
            None => state,
        }
    } else {
        let after = collect_nodes(element.children@, inner, state);
        match element.href {
            Some(href) if element.tag == HtmlTag::A => InlineState {
                links: after.links.push(
                    LinkSpan {
                        start: utf8_len(state.text) as usize,
                        end: utf8_len(after.text) as usize,
                        url: href@,
                    },
                ),
                ..after
            },
            _ => after,
        }
    }
}

/// Flattens a sequence of nodes in order.
pub open spec fn collect_nodes(nodes: Seq<HtmlNode>, style: InlineStyle, state: InlineState) -> InlineState
    decreases nodes,
{
    if nodes.len() == 0 {
        state
    } else {
        collect_node(
            nodes[nodes.len() - 1],
            style,
            collect_nodes(nodes.subrange(0, nodes.len() - 1), style, state),
        )
    }
}

/// Tags that flow within a line of text rather than start a block.
pub open spec fn spec_is_inline(tag: HtmlTag) -> bool {
    tag == HtmlTag::A || tag == HtmlTag::Em || tag == HtmlTag::Strong || tag == HtmlTag::Code
        || tag == HtmlTag::Span || tag == HtmlTag::Br
}

/// Whether `tag` flows within a line of text.
pub fn is_inline(tag: HtmlTag) -> (inline: bool)
    ensures
        inline == spec_is_inline(tag),
{
    match tag {
        HtmlTag::A | HtmlTag::Em | HtmlTag::Strong | HtmlTag::Code | HtmlTag::Span | HtmlTag::Br => true,
        _ => false,
    }
}

/// Accumulated inline content.
pub struct InlineText {
    text: String,
    len: usize,
    last: Option<char>,
    runs: Vec<StyleRun>,
    links: Vec<LinkRange>,
}

impl View for InlineText {
    type V = InlineState;

    closed spec fn view(&self) -> InlineState {
        InlineState { text: self.text@, runs: self.runs@, links: links_view(self.links@) }
    }
}

impl InlineText {
    /// The representation agrees with the text: the cached byte length and
    /// last character are the text's.
    pub closed spec fn wf(&self) -> bool {
        &&& self.len == utf8_len(self.text@)
        &&& self.last == (if self.text@.len() == 0 {
            None
        } else {
            Some(self.text@.last())
        })
    }

    /// Empty inline content.
    pub fn new() -> (inline: Self)
        ensures
            inline.wf(),
            inline@ == empty_state(),
    {
        let inline = InlineText {
            text: String::new(),
            len: 0,
            last: None,
            runs: Vec::new(),
            links: Vec::new(),
        };
        assert(inline@.links =~= Seq::<LinkSpan>::empty());
        assert(vstd::utf8::encode_utf8(Seq::<char>::empty()) =~= Seq::<u8>::empty());
        inline
    }

    /// The accumulated text.
    pub fn text(&self) -> (text: &String)
        ensures
            text@ == self@.text,
    {
        &self.text
    }

    /// The styled runs, in text order.
    pub fn runs(&self) -> (runs: &Vec<StyleRun>)
        ensures
            runs@ == self@.runs,
    {
        &self.runs
    }

    /// The recorded links, in the order their elements closed.
    pub fn links(&self) -> (links: &Vec<LinkRange>)
        ensures
            links_view(links@) == self@.links,
    {
        &self.links
    }

    /// Splits the content into its text, runs and links.
    pub fn into_parts(self) -> (parts: (String, Vec<StyleRun>, Vec<LinkRange>))
        ensures
            parts.0@ == self@.text,
            parts.1@ == self@.runs,
            links_view(parts.2@) == self@.links,
    {
        (self.text, self.runs, self.links)
    }

    /// The length of the text in bytes.
    pub fn byte_len(&self) -> (n: usize)
        requires
            self.wf(),
        ensures
            n == utf8_len(self@.text),
    {
        self.len
    }

    /// Appends one character in `style`, extending the last run when it has
    /// the same style and ends where the character starts.
    pub fn push_char(&mut self, c: char, style: InlineStyle)
        requires
            old(self).wf(),
        ensures
            final(self).wf(),
            final(self)@ == append_char(old(self)@, c, style),
    {
        let start = self.len;
        push_char(&mut self.text, c);
        let end = byte_len(&self.text);
        self.len = end;
        self.last = Some(c);
        let n = self.runs.len();
        if n > 0 && self.runs[n - 1].style == style && self.runs[n - 1].end == start {
            let previous = self.runs[n - 1];
            self.runs.set(n - 1, StyleRun { start: previous.start, end, style });
        } else {
            self.runs.push(StyleRun { start, end, style });
        }
        assert(self@.runs =~= extend_runs(old(self)@.runs, start, end, style));
    }

    /// Appends source text with HTML whitespace semantics: runs of
    /// whitespace collapse to one space, and whitespace at the start of the
    /// content or after a space or line break is dropped.
    pub fn push_text(&mut self, text: &str, style: InlineStyle)
        requires
            old(self).wf(),
        ensures
            final(self).wf(),
            final(self)@ == push_text_spec(old(self)@, text@, style),
    {
        let ghost initial = self@;
        for character in it: text.chars()
            invariant
                it.seq() == text@,
                self.wf(),
                self@ == push_text_spec(initial, text@.take(it.index() as int), style),
        {
            let ghost before = self@;
            let ghost index = it.index() as int;
            assert(text@.take(index + 1).drop_last() =~= text@.take(index));
            assert(text@.take(index + 1).last() == character);
            if is_whitespace_char(character) {
                let after_break = match self.last {
                    None => true,
                    Some(last) => last == ' ' || last == '\n',
                };
                if !after_break {
                    self.push_char(' ', style);
                }
            } else {
                self.push_char(character, style);
            }
        }
        assert(text@.take(text@.len() as int) =~= text@);
    }

    /// Whether the content is blank: it holds no character other than
    /// whitespace.
    pub fn is_empty(&self) -> (blank: bool)
        ensures
            blank == crate::text::is_blank(self@.text),
    {
        crate::text::string_is_blank(&self.text)
    }

    /// Records a link over the byte range `start..end`.
    pub fn push_link(&mut self, start: usize, end: usize, url: String)
        requires
            old(self).wf(),
        ensures
            final(self).wf(),
            final(self)@ == (InlineState {
                links: old(self)@.links.push(LinkSpan { start, end, url: url@ }),
                ..old(self)@
            }),
    {
        let link = LinkRange { start, end, url };
        self.links.push(link);
        assert(self@.links =~= old(self)@.links.push(link@));
    }

    /// Makes every run bold, and italic as well when `italic` is set,
    /// keeping text and links.
    pub fn set_all_bold(&mut self, italic: bool)
        requires
            old(self).wf(),
        ensures
            final(self).wf(),
            final(self)@.text == old(self)@.text,
            final(self)@.links == old(self)@.links,
            final(self)@.runs.len() == old(self)@.runs.len(),
            forall|i: int|
                0 <= i < old(self)@.runs.len() ==> #[trigger] final(self)@.runs[i] == (StyleRun {
                    style: InlineStyle {
                        bold: true,
                        italic: if italic {
                            true
                        } else {
                            old(self)@.runs[i].style.italic
                        },
                        ..old(self)@.runs[i].style
                    },
                    ..old(self)@.runs[i]
                }),
    {
        let ghost initial_runs = self.runs@;
        let mut i: usize = 0;
        while i < self.runs.len()
            invariant
                self.wf(),
                self.runs@.len() == initial_runs.len(),
                i <= initial_runs.len(),
                self@.text == old(self)@.text,
                self@.links == old(self)@.links,
                initial_runs == old(self)@.runs,
                forall|j: int|
                    0 <= j < i ==> #[trigger] self.runs@[j] == (StyleRun {
                        style: InlineStyle {
                            bold: true,
                            italic: if italic {
                                true
                            } else {
                                initial_runs[j].style.italic
                            },
                            ..initial_runs[j].style
                        },
                        ..initial_runs[j]
                    }),
                forall|j: int| i <= j < initial_runs.len() ==> #[trigger] self.runs@[j] == initial_runs[j],
            decreases initial_runs.len() - i,
        {
            let run = self.runs[i];
            let style = InlineStyle {
                bold: true,
                italic: if italic {
                    true
                } else {
                    run.style.italic
                },
                code: run.style.code,
                link: run.style.link,
            };
            self.runs.set(i, StyleRun { start: run.start, end: run.end, style });
            i = i + 1;
        }
    }
}

/// Flattens one node into `out` in `style`.
pub fn collect_inline(node: &HtmlNode, style: InlineStyle, out: &mut InlineText)
    requires
        old(out).wf(),
    ensures
        final(out).wf(),
        final(out)@ == collect_node(*node, style, old(out)@),
    decreases *node,
{
    match node {
        HtmlNode::Text(text) => out.push_text(text.as_str(), style),
        HtmlNode::Element(element) => collect_inline_element(element, style, out),
    }
}

/// Flattens one element into `out`, its own tag applied to `style`.
pub fn collect_inline_element(element: &HtmlElement, style: InlineStyle, out: &mut InlineText)
    requires
        old(out).wf(),
    ensures
        final(out).wf(),
        final(out)@ == collect_element(*element, style, old(out)@),
    decreases *element,
{
    let mut inner = style;
    match element.tag {
        HtmlTag::Strong => inner.bold = true,
        HtmlTag::Em => inner.italic = true,
        HtmlTag::Code => inner.code = true,
        HtmlTag::A => inner.link = true,
        HtmlTag::Br => {
            out.push_char('\n', inner);
            return;
        },
        HtmlTag::Img => {
            if let Some(alt) = &element.alt {
                out.push_text(alt.as_str(), inner);
            }
            return;
        },
        _ => {},
    }
    assert(inner == style_within(style, element.tag));
    let link_start = out.byte_len();
    collect_inline_children(&element.children, inner, out);
    if element.tag == HtmlTag::A {
        if let Some(href) = &element.href {
            let link_end = out.byte_len();
            out.push_link(link_start, link_end, href.clone());
        }
    }
}

/// Flattens every node of `nodes` into `out` in order.
pub fn collect_inline_children(nodes: &Vec<HtmlNode>, style: InlineStyle, out: &mut InlineText)
    requires
        old(out).wf(),
    ensures
        final(out).wf(),
        final(out)@ == collect_nodes(nodes@, style, old(out)@),
    decreases *nodes,
{
    let ghost initial = out@;
    let mut i: usize = 0;
    while i < nodes.len()
        invariant
            i <= nodes@.len(),
            out.wf(),
            out@ == collect_nodes(nodes@.subrange(0, i as int), style, initial),
            initial == old(out)@,
        decreases nodes@.len() - i,
    {
        let ghost prefix = nodes@.subrange(0, i as int + 1);
        assert(prefix.subrange(0, i as int) =~= nodes@.subrange(0, i as int));
        assert(prefix[i as int] == nodes@[i as int]);
        collect_inline(&nodes[i], style, out);
        i = i + 1;
    }
    assert(nodes@.subrange(0, nodes@.len() as int) =~= nodes@);
}


/// The runs cover the text's bytes `0..len` in order, each non-empty, each
/// starting where the previous one ends, and no two neighbours share a
/// style.
pub open spec fn runs_tile(runs: Seq<StyleRun>, len: int) -> bool {
    &&& runs.len() == 0 ==> len == 0
    &&& runs.len() > 0 ==> runs[0].start == 0 && runs.last().end == len
    &&& forall|i: int| #![trigger runs[i]] 0 <= i < runs.len() ==> runs[i].start < runs[i].end
    &&& forall|i: int|
        #![trigger runs[i]]
        0 <= i < runs.len() - 1 ==> runs[i].end == runs[i + 1].start && runs[i].style != runs[i
            + 1].style
}

/// Every link range lies within the text's `len` bytes.
pub open spec fn links_within(links: Seq<LinkSpan>, len: int) -> bool {
    forall|i: int| 0 <= i < links.len() ==> #[trigger] links[i].start <= links[i].end <= len
}

/// Whitespace is collapsed: the only whitespace is single spaces, never at
/// the start or after a space or line break, and line breaks.
pub open spec fn collapsed(text: Seq<char>) -> bool {
    &&& forall|i: int| 0 <= i < text.len() && #[trigger] text[i] == ' ' ==> i > 0 && text[i - 1] != ' '
        && text[i - 1] != '\n'
    &&& forall|i: int| 0 <= i < text.len() && is_unicode_ws(#[trigger] text[i]) ==> text[i] == ' '
        || text[i] == '\n'
}

/// The shape every inline content has: runs tiling the text, links within
/// it, whitespace collapsed.
pub open spec fn well_shaped(state: InlineState) -> bool {
    &&& runs_tile(state.runs, utf8_len(state.text) as int)
    &&& links_within(state.links, utf8_len(state.text) as int)
    &&& collapsed(state.text)
}

/// `b` starts with `a`.
pub open spec fn extends(a: Seq<char>, b: Seq<char>) -> bool {
    a.len() <= b.len() && b.subrange(0, a.len() as int) == a
}

/// A longer text has a longer encoding.
proof fn lemma_extends_utf8_len(a: Seq<char>, b: Seq<char>)
    requires
        extends(a, b),
    ensures
        utf8_len(a) <= utf8_len(b),
{
    crate::text::lemma_encode_utf8_concat(a, b.subrange(a.len() as int, b.len() as int));
    assert(a + b.subrange(a.len() as int, b.len() as int) =~= b);
}

/// Appending one character that is not other whitespace than a newline, and
/// not a space where none may stand, keeps the shape.
proof fn lemma_append_char_shape(state: InlineState, c: char, style: InlineStyle)
    requires
        well_shaped(state),
        utf8_len(state.text.push(c)) <= usize::MAX,
        !is_unicode_ws(c) || c == '\n' || (c == ' ' && !at_break(state.text)),
    ensures
        well_shaped(append_char(state, c, style)),
        extends(state.text, append_char(state, c, style).text),
{
    let text = state.text.push(c);
    crate::text::lemma_utf8_len_push(state.text, c);
    let next = append_char(state, c, style);
    let runs = state.runs;
    let len = utf8_len(state.text);
    if runs.len() > 0 && runs.last().style == style && runs.last().end == len as usize {
        assert(runs_tile(next.runs, utf8_len(text) as int)) by {
            assert forall|i: int| #![trigger next.runs[i]] 0 <= i < next.runs.len() - 1 implies next.runs[i].end
                == next.runs[i + 1].start && next.runs[i].style != next.runs[i + 1].style by {
                assert(next.runs[i] == runs[i]);
                if i + 1 < runs.len() - 1 {
                    assert(next.runs[i + 1] == runs[i + 1]);
                }
            }
        }
    } else {
        assert(runs_tile(next.runs, utf8_len(text) as int)) by {
            assert forall|i: int| #![trigger next.runs[i]] 0 <= i < next.runs.len() - 1 implies next.runs[i].end
                == next.runs[i + 1].start && next.runs[i].style != next.runs[i + 1].style by {
                assert(next.runs[i] == runs[i]);
                if i + 1 < runs.len() {
                    assert(next.runs[i + 1] == runs[i + 1]);
                }
            }
        }
    }
    assert(collapsed(text)) by {
        assert forall|i: int| 0 <= i < text.len() && #[trigger] text[i] == ' ' implies i > 0 && text[i - 1] != ' '
            && text[i - 1] != '\n' by {
            if i < state.text.len() {
                assert(text[i] == state.text[i]);
                assert(text[i - 1] == state.text[i - 1]);
            } else {
                assert(text[i - 1] == state.text.last());
            }
        }
        assert forall|i: int| 0 <= i < text.len() && is_unicode_ws(#[trigger] text[i]) implies text[i] == ' '
            || text[i] == '\n' by {
            if i < state.text.len() {
                assert(text[i] == state.text[i]);
            }
        }
    }
    assert(text.subrange(0, state.text.len() as int) =~= state.text);
}

/// Pushing source text keeps the shape and only appends to the text.
pub proof fn lemma_push_text_shape(state: InlineState, text: Seq<char>, style: InlineStyle)
    requires
        well_shaped(state),
        utf8_len(push_text_spec(state, text, style).text) <= usize::MAX,
    ensures
        well_shaped(push_text_spec(state, text, style)),
        extends(state.text, push_text_spec(state, text, style).text),
    decreases text.len(),
{
    if text.len() > 0 {
        let middle = push_text_spec(state, text.drop_last(), style);
        let last = text.last();
        let result = push_text_spec(state, text, style);
        if is_unicode_ws(last) && at_break(middle.text) {
            assert(result == middle);
        } else {
            let c = if is_unicode_ws(last) {
                ' '
            } else {
                last
            };
            assert(result.text == middle.text.push(c));
            assert(extends(middle.text, result.text)) by {
                assert(result.text.subrange(0, middle.text.len() as int) =~= middle.text);
            }
            lemma_extends_utf8_len(middle.text, result.text);
        }
        lemma_push_text_shape(state, text.drop_last(), style);
        if !(is_unicode_ws(last) && at_break(middle.text)) {
            let c = if is_unicode_ws(last) {
                ' '
            } else {
                last
            };
            lemma_append_char_shape(middle, c, style);
            assert(extends(state.text, result.text)) by {
                assert(result.text.subrange(0, state.text.len() as int) =~= middle.text.subrange(
                    0,
                    state.text.len() as int,
                ));
            }
        }
    } else {
        assert(state.text.subrange(0, state.text.len() as int) =~= state.text);
    }
}

/// Flattening a node keeps the shape of inline content and only appends to
/// its text: runs keep tiling the text, links stay within it, and
/// whitespace stays collapsed.
pub proof fn lemma_collect_node_shape(node: HtmlNode, style: InlineStyle, state: InlineState)
    requires
        well_shaped(state),
        utf8_len(collect_node(node, style, state).text) <= usize::MAX,
    ensures
        well_shaped(collect_node(node, style, state)),
        extends(state.text, collect_node(node, style, state).text),
    decreases node,
{
    match node {
        HtmlNode::Text(text) => lemma_push_text_shape(state, text@, style),
        HtmlNode::Element(element) => lemma_collect_element_shape(element, style, state),
    }
}

/// Flattening an element keeps the shape and only appends to the text.
pub proof fn lemma_collect_element_shape(element: HtmlElement, style: InlineStyle, state: InlineState)
    requires
        well_shaped(state),
        utf8_len(collect_element(element, style, state).text) <= usize::MAX,
    ensures
        well_shaped(collect_element(element, style, state)),
        extends(state.text, collect_element(element, style, state).text),
    decreases element,
{
    let inner = style_within(style, element.tag);
    if element.tag == HtmlTag::Br {
        lemma_append_char_shape(state, '\n', inner);
    } else if element.tag == HtmlTag::Img {
        match element.alt {
            Some(alt) => lemma_push_text_shape(state, alt@, inner),
            None => {
                assert(state.text.subrange(0, state.text.len() as int) =~= state.text);
            },
        }
    } else {
        let after = collect_nodes(element.children@, inner, state);
        let result = collect_element(element, style, state);
        assert(result.text == after.text);
        lemma_collect_nodes_shape(element.children@, inner, state);
        lemma_extends_utf8_len(state.text, after.text);
    }
}

/// Flattening a sequence of nodes keeps the shape and only appends to the
/// text.
pub proof fn lemma_collect_nodes_shape(nodes: Seq<HtmlNode>, style: InlineStyle, state: InlineState)
    requires
        well_shaped(state),
        utf8_len(collect_nodes(nodes, style, state).text) <= usize::MAX,
    ensures
        well_shaped(collect_nodes(nodes, style, state)),
        extends(state.text, collect_nodes(nodes, style, state).text),
    decreases nodes,
{
    if nodes.len() == 0 {
        assert(state.text.subrange(0, state.text.len() as int) =~= state.text);
    } else {
        let prefix = nodes.subrange(0, nodes.len() - 1);
        let middle = collect_nodes(prefix, style, state);
        let last = nodes[nodes.len() - 1];
        let result = collect_nodes(nodes, style, state);
        assert(result == collect_node(last, style, middle));
        lemma_collect_node_prefix(last, style, middle);
        lemma_extends_utf8_len(middle.text, result.text);
        lemma_collect_nodes_shape(prefix, style, state);
        lemma_collect_node_shape(last, style, middle);
        assert(result.text.subrange(0, state.text.len() as int) =~= middle.text.subrange(
            0,
            state.text.len() as int,
        ));
    }
}

/// Flattening a node only appends to the text.
proof fn lemma_collect_node_prefix(node: HtmlNode, style: InlineStyle, state: InlineState)
    ensures
        extends(state.text, collect_node(node, style, state).text),
    decreases node,
{
    match node {
        HtmlNode::Text(text) => lemma_push_text_prefix(state, text@, style),
        HtmlNode::Element(element) => lemma_collect_element_prefix(element, style, state),
    }
}

/// Flattening an element only appends to the text.
proof fn lemma_collect_element_prefix(element: HtmlElement, style: InlineStyle, state: InlineState)
    ensures
        extends(state.text, collect_element(element, style, state).text),
    decreases element,
{
    let inner = style_within(style, element.tag);
    if element.tag == HtmlTag::Br {
        assert(state.text.push('\n').subrange(0, state.text.len() as int) =~= state.text);
    } else if element.tag == HtmlTag::Img {
        match element.alt {
            Some(alt) => lemma_push_text_prefix(state, alt@, inner),
            None => {
                assert(state.text.subrange(0, state.text.len() as int) =~= state.text);
            },
        }
    } else {
        lemma_collect_nodes_prefix(element.children@, inner, state);
    }
}

/// Flattening a sequence of nodes only appends to the text.
proof fn lemma_collect_nodes_prefix(nodes: Seq<HtmlNode>, style: InlineStyle, state: InlineState)
    ensures
        extends(state.text, collect_nodes(nodes, style, state).text),
    decreases nodes,
{
    if nodes.len() == 0 {
        assert(state.text.subrange(0, state.text.len() as int) =~= state.text);
    } else {
        let prefix = nodes.subrange(0, nodes.len() - 1);
        let middle = collect_nodes(prefix, style, state);
        let result = collect_nodes(nodes, style, state);
        lemma_collect_nodes_prefix(prefix, style, state);
        lemma_collect_node_prefix(nodes[nodes.len() - 1], style, middle);
        assert(result.text.subrange(0, state.text.len() as int) =~= middle.text.subrange(
            0,
            state.text.len() as int,
        ));
    }
}

/// Pushing source text only appends to the text.
proof fn lemma_push_text_prefix(state: InlineState, text: Seq<char>, style: InlineStyle)
    ensures
        extends(state.text, push_text_spec(state, text, style).text),
    decreases text.len(),
{
    if text.len() > 0 {
        let middle = push_text_spec(state, text.drop_last(), style);
        let result = push_text_spec(state, text, style);
        lemma_push_text_prefix(state, text.drop_last(), style);
        assert(result.text.subrange(0, state.text.len() as int) =~= middle.text.subrange(
            0,
            state.text.len() as int,
        ));
    } else {
        assert(state.text.subrange(0, state.text.len() as int) =~= state.text);
    }
}

/// Empty inline content has the shape.
pub proof fn lemma_empty_shape()
    ensures
        well_shaped(empty_state()),
{
    assert(vstd::utf8::encode_utf8(Seq::<char>::empty()) =~= Seq::<u8>::empty());
}


/// Every flag set in `outer` is set in `inner` too.
pub open spec fn style_includes(outer: InlineStyle, inner: InlineStyle) -> bool {
    &&& outer.bold ==> inner.bold
    &&& outer.italic ==> inner.italic
    &&& outer.code ==> inner.code
    &&& outer.link ==> inner.link
}

/// `after` keeps the runs of `before` and draws everything else at least in
/// `style`: each of its runs either stands unchanged at the same place in
/// `before` or carries every flag of `style`.
pub open spec fn runs_keep_style(before: Seq<StyleRun>, after: Seq<StyleRun>, style: InlineStyle) -> bool {
    forall|i: int|
        0 <= i < after.len() ==> (i < before.len() && #[trigger] after[i] == before[i])
            || style_includes(style, after[i].style)
}

proof fn lemma_runs_keep_style_trans(
    a: Seq<StyleRun>,
    b: Seq<StyleRun>,
    c: Seq<StyleRun>,
    style: InlineStyle,
)
    requires
        runs_keep_style(a, b, style),
        runs_keep_style(b, c, style),
    ensures
        runs_keep_style(a, c, style),
{
    assert forall|i: int| 0 <= i < c.len() implies (i < a.len() && #[trigger] c[i] == a[i])
        || style_includes(style, c[i].style) by {
        if i < b.len() && c[i] == b[i] {
            assert(b[i] == b[i]);
        }
    }
}

proof fn lemma_runs_keep_style_weaken(
    a: Seq<StyleRun>,
    b: Seq<StyleRun>,
    inner: InlineStyle,
    style: InlineStyle,
)
    requires
        runs_keep_style(a, b, inner),
        style_includes(style, inner),
    ensures
        runs_keep_style(a, b, style),
{
    assert forall|i: int| 0 <= i < b.len() implies (i < a.len() && #[trigger] b[i] == a[i])
        || style_includes(style, b[i].style) by {
        if !(i < a.len() && b[i] == a[i]) {
            assert(style_includes(inner, b[i].style));
        }
    }
}

proof fn lemma_append_char_keeps_style(state: InlineState, c: char, style: InlineStyle)
    ensures
        runs_keep_style(state.runs, append_char(state, c, style).runs, style),
{
    let after = append_char(state, c, style).runs;
    assert forall|i: int| 0 <= i < after.len() implies (i < state.runs.len() && #[trigger] after[i]
        == state.runs[i]) || style_includes(style, after[i].style) by {
        if i < state.runs.len() - 1 {
            assert(after[i] == state.runs[i]);
        }
    }
}

proof fn lemma_push_text_keeps_style(state: InlineState, text: Seq<char>, style: InlineStyle)
    ensures
        runs_keep_style(state.runs, push_text_spec(state, text, style).runs, style),
    decreases text.len(),
{
    if text.len() == 0 {
        assert(runs_keep_style(state.runs, state.runs, style));
    } else {
        let middle = push_text_spec(state, text.drop_last(), style);
        lemma_push_text_keeps_style(state, text.drop_last(), style);
        let c = text.last();
        if is_unicode_ws(c) {
            if !at_break(middle.text) {
                lemma_append_char_keeps_style(middle, ' ', style);
                lemma_runs_keep_style_trans(
                    state.runs,
                    middle.runs,
                    append_char(middle, ' ', style).runs,
                    style,
                );
            }
        } else {
            lemma_append_char_keeps_style(middle, c, style);
            lemma_runs_keep_style_trans(state.runs, middle.runs, append_char(middle, c, style).runs, style);
        }
    }
}

/// Styles nest: whatever a node adds to inline content is drawn in the
/// enclosing style, with flags added and none taken away; runs already
/// there stay as they were.
pub proof fn lemma_styles_nest(node: HtmlNode, style: InlineStyle, state: InlineState)
    ensures
        runs_keep_style(state.runs, collect_node(node, style, state).runs, style),
    decreases node,
{
    match node {
        HtmlNode::Text(text) => lemma_push_text_keeps_style(state, text@, style),
        HtmlNode::Element(element) => lemma_element_styles_nest(element, style, state),
    }
}

/// An element draws its content in the enclosing style with its own flag
/// added: `<strong>` bold, `<em>` italic, `<code>` code, `<a>` link; and
/// every flag of the enclosing style stays set.
pub proof fn lemma_element_styles_nest(element: HtmlElement, style: InlineStyle, state: InlineState)
    ensures
        runs_keep_style(state.runs, collect_element(element, style, state).runs, style),
        element.tag == HtmlTag::Strong ==> runs_keep_style(
            state.runs,
            collect_element(element, style, state).runs,
            InlineStyle { bold: true, ..style },
        ),
        element.tag == HtmlTag::Em ==> runs_keep_style(
            state.runs,
            collect_element(element, style, state).runs,
            InlineStyle { italic: true, ..style },
        ),
        element.tag == HtmlTag::Code ==> runs_keep_style(
            state.runs,
            collect_element(element, style, state).runs,
            InlineStyle { code: true, ..style },
        ),
        element.tag == HtmlTag::A ==> runs_keep_style(
            state.runs,
            collect_element(element, style, state).runs,
            InlineStyle { link: true, ..style },
        ),
    decreases element,
{
    let inner = style_within(style, element.tag);
    let after = collect_element(element, style, state).runs;
    if element.tag == HtmlTag::Br {
        lemma_append_char_keeps_style(state, '\n', inner);
    } else if element.tag == HtmlTag::Img {
        match element.alt {
            Some(alt) => lemma_push_text_keeps_style(state, alt@, inner),
            None => assert(runs_keep_style(state.runs, state.runs, inner)),
        }
    } else {
        lemma_nodes_styles_nest(element.children@, inner, state);
        assert(after == collect_nodes(element.children@, inner, state).runs);
    }
    assert(runs_keep_style(state.runs, after, inner));
    lemma_runs_keep_style_weaken(state.runs, after, inner, style);
}

/// Flattening a sequence of nodes in `style` draws all it adds at least in
/// `style`.
pub proof fn lemma_nodes_styles_nest(nodes: Seq<HtmlNode>, style: InlineStyle, state: InlineState)
    ensures
        runs_keep_style(state.runs, collect_nodes(nodes, style, state).runs, style),
    decreases nodes,
{
    if nodes.len() == 0 {
        assert(runs_keep_style(state.runs, state.runs, style));
    } else {
        let prefix = nodes.subrange(0, nodes.len() - 1);
        let middle = collect_nodes(prefix, style, state);
        lemma_nodes_styles_nest(prefix, style, state);
        lemma_styles_nest(nodes[nodes.len() - 1], style, middle);
        lemma_runs_keep_style_trans(
            state.runs,
            middle.runs,
            collect_nodes(nodes, style, state).runs,
            style,
        );
    }
}

} // verus!
