//! The layout of the parsed HTML subset: which blocks the preview draws, in
//! what order, with what text, runs, sizes and weights. Drawing the blocks
//! with the editor's theme is left to the user interface.
use vstd::prelude::*;

use crate::html_tree::{HtmlElement, HtmlNode, HtmlTag, spec_heading_level};
use crate::inline::{
    collect_inline, collect_inline_children, collect_node, collect_nodes, empty_state, is_inline,
    links_view, spec_is_inline, push_text_spec, InlineState, InlineStyle, InlineText, LinkRange,
    LinkSpan, StyleRun,
};
use crate::paths::{is_absolute_path, join_path, join_relative, path_is_absolute};
use crate::text::{append_str, has_token, is_blank, str_has_token};

verus! {

/// Font weights the preview uses.
#[derive(Debug, Clone, Copy, PartialEq, Eq, Structural)]
pub enum FontWeight {
    Normal,
    Semibold,
    Bold,
}

/// Text sizes relative to the body size, in rem.
#[derive(Debug, Clone, Copy, PartialEq, Eq, Structural)]
pub enum TextSize {
    /// 1.4 rem: the document title.
    Title,
    /// 1 rem: body text, and every heading but the title.
    Body,
    /// 0.875 rem: captions.
    Small,
}

/// The size in thousandths of a rem.
pub open spec fn spec_rem_thousandths(size: TextSize) -> u32 {
    match size {
        TextSize::Title => 1400,
        TextSize::Body => 1000,
        TextSize::Small => 875,
    }
}

impl TextSize {
    /// The size in thousandths of a rem.
    pub fn rem_thousandths(self) -> (thousandths: u32)
        ensures
            thousandths == spec_rem_thousandths(self),
    {
        match self {
            TextSize::Title => 1400,
            TextSize::Body => 1000,
            TextSize::Small => 875,
        }
    }
}

/// How one run of text is drawn.
#[derive(Debug, Clone, Copy, PartialEq, Eq, Structural)]
pub struct RunFormat {
    /// Length of the run in bytes.
    pub len: usize,
    /// Drawn in the buffer (code) font rather than the interface font.
    pub code_font: bool,
    pub weight: FontWeight,
    pub italic: bool,
    /// Drawn in the link color rather than the text color.
    pub link_color: bool,
    /// Drawn on the code background.
    pub code_background: bool,
    pub underline: bool,
}

/// A paragraph of styled text.
#[derive(Debug)]
pub struct TextBlock {
    pub text: String,
    pub runs: Vec<RunFormat>,
    pub links: Vec<LinkRange>,
    pub size: TextSize,
}

/// The layouts of vertical stacks of blocks.
#[derive(Debug, Clone, Copy, PartialEq, Eq, Structural)]
pub enum StackKind {
    /// Transparent containers (document and header wrappers, table
    /// sections, unknown elements): gap 3.
    Container,
    /// Elements without a layout of their own: gap 2.
    Plain,
    /// Definition lists: gap 1.
    DefinitionList,
    /// Definition descriptions: indented, gap 1.
    Definition,
    /// Block quotes: indented behind a left border, muted, gap 2.
    Quote,
    /// Figures: gap 1, vertical margin.
    Figure,
}

/// One item of a list: its marker and its content.
#[derive(Debug)]
pub struct ListItem {
    pub marker: String,
    pub content: Vec<Block>,
}

/// One row of a table: its cells, and whether a divider is drawn below it
/// (every row but the last).
#[derive(Debug)]
pub struct TableRow {
    pub cells: Vec<TextBlock>,
    pub divider: bool,
}

/// A block of the preview.
#[derive(Debug)]
pub enum Block {
    /// Body text: a paragraph, a definition term, or loose inline content.
    Text(TextBlock),
    /// A heading, set off by a top margin.
    Heading(TextBlock),
    /// A figure caption, muted and small.
    Caption(TextBlock),
    /// A vertical stack of blocks.
    Stack(StackKind, Vec<Block>),
    /// A bulleted or numbered list.
    List(Vec<ListItem>),
    /// A code block, with its language label if it has one.
    Code { language: Option<String>, code: String },
    /// A table.
    Table(Vec<TableRow>),
    /// An image: its source, and the text drawn when it cannot be shown.
    Image { src: Option<String>, placeholder: String },
    /// A horizontal rule.
    Rule,
    /// A section: its heading flush, its content indented below it.
    Section { heading: Option<Box<Block>>, content: Vec<Block> },
}

/// The value of a [`TextBlock`].
pub struct TextBlockView {
    pub text: Seq<char>,
    pub runs: Seq<RunFormat>,
    pub links: Seq<LinkSpan>,
    pub size: TextSize,
}

/// The value of a [`ListItem`].
pub struct ListItemView {
    pub marker: Seq<char>,
    pub content: Seq<BlockView>,
}

/// The value of a [`TableRow`].
pub struct TableRowView {
    pub cells: Seq<TextBlockView>,
    pub divider: bool,
}

/// The value of a [`Block`].
pub enum BlockView {
    Text(TextBlockView),
    Heading(TextBlockView),
    Caption(TextBlockView),
    Stack(StackKind, Seq<BlockView>),
    List(Seq<ListItemView>),
    Code { language: Option<Seq<char>>, code: Seq<char> },
    Table(Seq<TableRowView>),
    Image { src: Option<Seq<char>>, placeholder: Seq<char> },
    Rule,
    Section { heading: Option<Box<BlockView>>, content: Seq<BlockView> },
}

/// The value of a text block.
pub open spec fn text_block_view(block: TextBlock) -> TextBlockView {
    TextBlockView {
        text: block.text@,
        runs: block.runs@,
        links: links_view(block.links@),
        size: block.size,
    }
}

/// The value of a table row.
pub open spec fn table_row_view(row: TableRow) -> TableRowView {
    TableRowView {
        cells: row.cells@.map_values(|cell: TextBlock| text_block_view(cell)),
        divider: row.divider,
    }
}

/// The characters of an optional string.
pub open spec fn opt_chars(value: Option<String>) -> Option<Seq<char>> {
    match value {
        Some(s) => Some(s@),
        None => None,
    }
}

/// The value of a block.
pub open spec fn block_view(block: Block) -> BlockView
    decreases block,
{
    match block {
        Block::Text(t) => BlockView::Text(text_block_view(t)),
        Block::Heading(t) => BlockView::Heading(text_block_view(t)),
        Block::Caption(t) => BlockView::Caption(text_block_view(t)),
        Block::Stack(kind, children) => BlockView::Stack(kind, blocks_view(children@)),
        Block::List(items) => BlockView::List(items_view(items@)),
        Block::Code { language, code } => BlockView::Code {
            language: opt_chars(language),
            code: code@,
        },
        Block::Table(rows) => BlockView::Table(
            rows@.map_values(|row: TableRow| table_row_view(row)),
        ),
        Block::Image { src, placeholder } => BlockView::Image {
            src: opt_chars(src),
            placeholder: placeholder@,
        },
        Block::Rule => BlockView::Rule,
        Block::Section { heading, content } => BlockView::Section {
            heading: match heading {
                Some(h) => Some(Box::new(block_view(*h))),
                None => None,
            },
            content: blocks_view(content@),
        },
    }
}

/// The values of a sequence of blocks, in order.
pub open spec fn blocks_view(blocks: Seq<Block>) -> Seq<BlockView>
    decreases blocks,
{
    if blocks.len() == 0 {
        Seq::empty()
    } else {
        blocks_view(blocks.subrange(0, blocks.len() - 1)).push(block_view(blocks[blocks.len() - 1]))
    }
}

/// The values of a sequence of list items, in order.
pub open spec fn items_view(items: Seq<ListItem>) -> Seq<ListItemView>
    decreases items,
{
    if items.len() == 0 {
        Seq::empty()
    } else {
        let item = items[items.len() - 1];
        items_view(items.subrange(0, items.len() - 1)).push(
            ListItemView { marker: item.marker@, content: blocks_view(item.content@) },
        )
    }
}

/// Appending a block appends its value.
pub proof fn lemma_blocks_view_push(blocks: Seq<Block>, block: Block)
    ensures
        blocks_view(blocks.push(block)) == blocks_view(blocks).push(block_view(block)),
{
    assert(blocks.push(block).subrange(0, blocks.len() as int) =~= blocks);
}

/// Appending an item appends its value.
pub proof fn lemma_items_view_push(items: Seq<ListItem>, item: ListItem)
    ensures
        items_view(items.push(item)) == items_view(items).push(
            ListItemView { marker: item.marker@, content: blocks_view(item.content@) },
        ),
{
    assert(items.push(item).subrange(0, items.len() as int) =~= items);
}

/// The length of a byte range, zero when it is reversed.
pub open spec fn range_len(start: usize, end: usize) -> usize {
    if start <= end {
        (end - start) as usize
    } else {
        0
    }
}

/// How a run in `style` is drawn in a block whose base weight is
/// `base_weight`: bold runs are bold, code runs use the code font and
/// background, link runs the link color and an underline.
pub open spec fn run_format(run: StyleRun, base_weight: FontWeight) -> RunFormat {
    RunFormat {
        len: range_len(run.start, run.end),
        code_font: run.style.code,
        weight: if run.style.bold {
            FontWeight::Bold
        } else {
            base_weight
        },
        italic: run.style.italic,
        link_color: run.style.link,
        code_background: run.style.code,
        underline: run.style.link,
    }
}

/// The text block drawn from inline content.
pub open spec fn inline_block(state: InlineState, size: TextSize, base_weight: FontWeight) -> TextBlockView {
    TextBlockView {
        text: state.text,
        runs: state.runs.map_values(|run: StyleRun| run_format(run, base_weight)),
        links: state.links,
        size,
    }
}

/// The same inline content with every run made bold, and italic as well
/// when `italic` is set.
pub open spec fn emphasized(state: InlineState, italic: bool) -> InlineState {
    InlineState {
        runs: state.runs.map_values(
            |run: StyleRun|
                StyleRun {
                    style: InlineStyle {
                        bold: true,
                        italic: if italic {
                            true
                        } else {
                            run.style.italic
                        },
                        ..run.style
                    },
                    ..run
                },
        ),
        ..state
    }
}

/// No inline style at all.
pub open spec fn plain_style() -> InlineStyle {
    InlineStyle { bold: false, italic: false, code: false, link: false }
}

/// The inline content of a sequence of nodes, from nothing, unstyled.
pub open spec fn inline_of(nodes: Seq<HtmlNode>) -> InlineState {
    collect_nodes(nodes, plain_style(), empty_state())
}

/// Adds loose inline content to the blocks, unless it is blank.
pub open spec fn flush(blocks: Seq<BlockView>, pending: InlineState) -> Seq<BlockView> {
    if is_blank(pending.text) {
        blocks
    } else {
        blocks.push(BlockView::Text(inline_block(pending, TextSize::Body, FontWeight::Normal)))
    }
}

/// The blocks so far and the inline content not yet placed in a block,
/// after laying out `nodes` except the one at index `skip`: text and
/// inline elements accumulate, and a block element first places what
/// accumulated, then adds its own block.
pub open spec fn layout_prefix(nodes: Seq<HtmlNode>, skip: int) -> (Seq<BlockView>, InlineState)
    decreases nodes,
{
    if nodes.len() == 0 {
        (Seq::empty(), empty_state())
    } else {
        let previous = layout_prefix(nodes.subrange(0, nodes.len() - 1), skip);
        if nodes.len() - 1 == skip {
            previous
        } else {
            layout_step(previous, nodes[nodes.len() - 1])
        }
    }
}

/// Lays out one more node.
pub open spec fn layout_step(previous: (Seq<BlockView>, InlineState), node: HtmlNode) -> (
    Seq<BlockView>,
    InlineState,
)
    decreases node,
{
    match node {
        HtmlNode::Text(text) => (
            previous.0,
            push_text_spec(previous.1, text@, plain_style()),
        ),
        HtmlNode::Element(element) => if spec_is_inline(element.tag) {
            (previous.0, collect_node(node, plain_style(), previous.1))
        } else {
            let placed = flush(previous.0, previous.1);
            (
                match block_of(element) {
                    Some(block) => placed.push(block),
                    None => placed,
                },
                empty_state(),
            )
        },
    }
}

/// The blocks that a sequence of nodes lays out to, leaving out the node at
/// index `skip`.
pub open spec fn layout_nodes(nodes: Seq<HtmlNode>, skip: int) -> Seq<BlockView> {
    let done = layout_prefix(nodes, skip);
    flush(done.0, done.1)
}

/// Whether the element has `class` among its class names.
pub open spec fn spec_has_class(element: HtmlElement, class: Seq<char>) -> bool {
    element.class matches Some(classes) && has_token(classes@, class)
}

/// The size of a heading: headings stay at body size and are told apart by
/// weight; only the document title is set larger.
pub open spec fn heading_size(element: HtmlElement) -> TextSize {
    if spec_has_class(element, "lex-doc-title"@) {
        TextSize::Title
    } else {
        TextSize::Body
    }
}

/// The weight of a heading: semibold from level 6 on, bold above.
pub open spec fn heading_weight(level: u8) -> FontWeight {
    if level >= 6 {
        FontWeight::Semibold
    } else {
        FontWeight::Bold
    }
}

/// The decimal digits of a number.
pub open spec fn decimal(n: nat) -> Seq<char>
    decreases n,
{
    if n < 10 {
        seq![digit_char(n)]
    } else {
        decimal(n / 10).push(digit_char(n % 10))
    }
}

/// The character of a decimal digit.
pub open spec fn digit_char(d: nat) -> char {
    if d == 0 {
        '0'
    } else if d == 1 {
        '1'
    } else if d == 2 {
        '2'
    } else if d == 3 {
        '3'
    } else if d == 4 {
        '4'
    } else if d == 5 {
        '5'
    } else if d == 6 {
        '6'
    } else if d == 7 {
        '7'
    } else if d == 8 {
        '8'
    } else {
        '9'
    }
}

/// The marker of the `index`-th item (counting from 1): "`index`." in an
/// ordered list, an en dash otherwise.
pub open spec fn list_marker(ordered: bool, index: nat) -> Seq<char> {
    if ordered {
        decimal(index).push('.')
    } else {
        seq!['\u{2013}']
    }
}

/// The items of a list: one per `<li>` child, in order, numbered from 1;
/// other children are ignored.
pub open spec fn list_items(children: Seq<HtmlNode>, ordered: bool) -> Seq<ListItemView>
    decreases children,
{
    if children.len() == 0 {
        Seq::empty()
    } else {
        let previous = list_items(children.subrange(0, children.len() - 1), ordered);
        match children[children.len() - 1] {
            HtmlNode::Element(item) => if item.tag == HtmlTag::Li {
                previous.push(
                    ListItemView {
                        marker: list_marker(ordered, previous.len() + 1),
                        content: layout_nodes_of(item),
                    },
                )
            } else {
                previous
            },
            HtmlNode::Text(_) => previous,
        }
    }
}

/// The blocks an element's children lay out to.
pub open spec fn layout_nodes_of(element: HtmlElement) -> Seq<BlockView>
    decreases element,
{
    let done = layout_prefix(element.children@, -1);
    flush(done.0, done.1)
}

/// The text of a code block's content taken verbatim: text as it is, a line
/// break as a newline, other elements as their content.
pub open spec fn verbatim(nodes: Seq<HtmlNode>) -> Seq<char>
    decreases nodes,
{
    if nodes.len() == 0 {
        Seq::empty()
    } else {
        verbatim(nodes.subrange(0, nodes.len() - 1)) + match nodes[nodes.len() - 1] {
            HtmlNode::Text(text) => text@,
            HtmlNode::Element(element) => if element.tag == HtmlTag::Br {
                seq!['\n']
            } else {
                verbatim(element.children@)
            },
        }
    }
}

/// The text with its trailing newlines removed.
pub open spec fn trim_trailing_newlines(text: Seq<char>) -> Seq<char>
    decreases text.len(),
{
    if text.len() > 0 && text.last() == '\n' {
        trim_trailing_newlines(text.drop_last())
    } else {
        text
    }
}

/// The text block of one table cell: its inline content, bold throughout in
/// a header cell.
pub open spec fn cell_block(cell: HtmlElement) -> TextBlockView {
    let inline = inline_of(cell.children@);
    inline_block(
        if cell.tag == HtmlTag::Th {
            emphasized(inline, false)
        } else {
            inline
        },
        TextSize::Body,
        FontWeight::Normal,
    )
}

/// The cells of a table row: its `<th>` and `<td>` children, in order.
pub open spec fn row_cells(children: Seq<HtmlNode>) -> Seq<TextBlockView>
    decreases children.len(),
{
    if children.len() == 0 {
        Seq::empty()
    } else {
        let previous = row_cells(children.subrange(0, children.len() - 1));
        match children[children.len() - 1] {
            HtmlNode::Element(cell) => if cell.tag == HtmlTag::Th || cell.tag == HtmlTag::Td {
                previous.push(cell_block(cell))
            } else {
                previous
            },
            HtmlNode::Text(_) => previous,
        }
    }
}

/// The rows of a table, each as its cells: the `<tr>` children that have
/// cells, looking into `<thead>` and `<tbody>`, in document order.
pub open spec fn table_rows(children: Seq<HtmlNode>) -> Seq<Seq<TextBlockView>>
    decreases children,
{
    if children.len() == 0 {
        Seq::empty()
    } else {
        let previous = table_rows(children.subrange(0, children.len() - 1));
        match children[children.len() - 1] {
            HtmlNode::Element(child) => if child.tag == HtmlTag::Thead || child.tag
                == HtmlTag::Tbody {
                previous + table_rows(child.children@)
            } else if child.tag == HtmlTag::Tr {
                let cells = row_cells(child.children@);
                if cells.len() > 0 {
                    previous.push(cells)
                } else {
                    previous
                }
            } else {
                previous
            },
            HtmlNode::Text(_) => previous,
        }
    }
}

/// The rows of a table with a divider below each row but the last.
pub open spec fn with_dividers(rows: Seq<Seq<TextBlockView>>) -> Seq<TableRowView> {
    Seq::new(
        rows.len(),
        |i: int| TableRowView { cells: rows[i], divider: i + 1 < rows.len() },
    )
}

/// The text drawn for an image that cannot be shown: its alt text, else its
/// source, else "image".
pub open spec fn image_placeholder(element: HtmlElement) -> Seq<char> {
    match element.alt {
        Some(alt) => alt@,
        None => match element.src {
            Some(src) => src@,
            None => "image"@,
        },
    }
}

/// The index of the first child that is a heading element.
pub open spec fn first_heading(children: Seq<HtmlNode>) -> Option<int>
    decreases children.len(),
{
    if children.len() == 0 {
        None
    } else {
        match first_heading(children.subrange(0, children.len() - 1)) {
            Some(i) => Some(i),
            None => match children[children.len() - 1] {
                HtmlNode::Element(e) => if spec_heading_level(e.tag) is Some {
                    Some(children.len() - 1)
                } else {
                    None
                },
                HtmlNode::Text(_) => None,
            },
        }
    }
}

/// The index that `first_heading` gives is an index of the sequence, and a
/// heading element stands there.
pub proof fn lemma_first_heading_in_range(children: Seq<HtmlNode>)
    ensures
        first_heading(children) matches Some(k) ==> (0 <= k < children.len() && (
        children[k] matches HtmlNode::Element(e) && spec_heading_level(e.tag) is Some)),
    decreases children.len(),
{
    if children.len() > 0 {
        let prefix = children.subrange(0, children.len() - 1);
        lemma_first_heading_in_range(prefix);
        if let Some(k) = first_heading(prefix) {
            assert(children[k] == prefix[k]);
        }
    }
}

/// The block of a heading element of `level`.
pub open spec fn heading_block(element: HtmlElement, level: u8) -> BlockView {
    BlockView::Heading(
        inline_block(
            inline_of(element.children@),
            heading_size(element),
            heading_weight(level),
        ),
    )
}

/// The block that a block-level element lays out to, if any: headings,
/// paragraphs (none when blank), lists, stacks, code, tables, images,
/// rules and sections.
pub open spec fn block_of(element: HtmlElement) -> Option<BlockView>
    decreases element,
{
    match spec_heading_level(element.tag) {
        Some(level) => Some(heading_block(element, level)),
        None => {
            let tag = element.tag;
            if tag == HtmlTag::P || tag == HtmlTag::Dt || tag == HtmlTag::Figcaption {
                let inline = inline_of(element.children@);
                if is_blank(inline.text) {
                    None
                } else if tag == HtmlTag::Dt {
                    Some(
                        BlockView::Text(
                            inline_block(emphasized(inline, true), TextSize::Body, FontWeight::Normal),
                        ),
                    )
                } else if tag == HtmlTag::Figcaption {
                    Some(BlockView::Caption(inline_block(inline, TextSize::Small, FontWeight::Normal)))
                } else {
                    Some(BlockView::Text(inline_block(inline, TextSize::Body, FontWeight::Normal)))
                }
            } else if tag == HtmlTag::Ul || tag == HtmlTag::Ol {
                Some(BlockView::List(list_items(element.children@, tag == HtmlTag::Ol)))
            } else if tag == HtmlTag::Pre {
                Some(
                    BlockView::Code {
                        language: opt_chars(element.data_language),
                        code: trim_trailing_newlines(verbatim(element.children@)),
                    },
                )
            } else if tag == HtmlTag::Table {
                Some(BlockView::Table(with_dividers(table_rows(element.children@))))
            } else if tag == HtmlTag::Img {
                Some(
                    BlockView::Image {
                        src: opt_chars(element.src),
                        placeholder: image_placeholder(element),
                    },
                )
            } else if tag == HtmlTag::Hr {
                Some(BlockView::Rule)
            } else if tag == HtmlTag::Section {
                let children = element.children@;
                proof {
                    lemma_first_heading_in_range(children);
                }
                match first_heading(children) {
                    Some(k) => Some(
                        BlockView::Section {
                            heading: match children[k] {
                                HtmlNode::Element(h) => match block_of(h) {
                                    Some(b) => Some(Box::new(b)),
                                    None => None,
                                },
                                HtmlNode::Text(_) => None,
                            },
                            content: {
                                let done = layout_prefix(children, k);
                                flush(done.0, done.1)
                            },
                        },
                    ),
                    None => {
                        let done = layout_prefix(children, -1);
                        Some(BlockView::Section { heading: None, content: flush(done.0, done.1) })
                    },
                }
            } else {
                let done = layout_prefix(element.children@, -1);
                Some(BlockView::Stack(stack_kind(tag), flush(done.0, done.1)))
            }
        },
    }
}

/// The stack layout of an element without a layout of its own.
pub open spec fn stack_kind(tag: HtmlTag) -> StackKind {
    if tag == HtmlTag::Dl {
        StackKind::DefinitionList
    } else if tag == HtmlTag::Dd {
        StackKind::Definition
    } else if tag == HtmlTag::Blockquote {
        StackKind::Quote
    } else if tag == HtmlTag::Figure {
        StackKind::Figure
    } else if tag == HtmlTag::Div || tag == HtmlTag::Header || tag == HtmlTag::Other || tag
        == HtmlTag::Thead || tag == HtmlTag::Tbody {
        StackKind::Container
    } else {
        StackKind::Plain
    }
}


/// The value of an optional block.
pub open spec fn opt_block_view(block: Option<Block>) -> Option<BlockView> {
    match block {
        Some(b) => Some(block_view(b)),
        None => None,
    }
}

/// The values of a table's rows of cells.
pub open spec fn cells_view(cells: Seq<TextBlock>) -> Seq<TextBlockView> {
    cells.map_values(|cell: TextBlock| text_block_view(cell))
}

/// The values of a list of rows of cells.
pub open spec fn rows_view(rows: Seq<Vec<TextBlock>>) -> Seq<Seq<TextBlockView>> {
    rows.map_values(|row: Vec<TextBlock>| cells_view(row@))
}

/// The index that `skip` stands for, or -1 for none.
pub open spec fn skip_index(skip: Option<usize>) -> int {
    match skip {
        Some(k) => k as int,
        None => -1,
    }
}

/// How one run is drawn.
fn format_run(run: StyleRun, base_weight: FontWeight) -> (format: RunFormat)
    ensures
        format == run_format(run, base_weight),
{
    RunFormat {
        len: if run.start <= run.end {
            run.end - run.start
        } else {
            0
        },
        code_font: run.style.code,
        weight: if run.style.bold {
            FontWeight::Bold
        } else {
            base_weight
        },
        italic: run.style.italic,
        link_color: run.style.link,
        code_background: run.style.code,
        underline: run.style.link,
    }
}

/// The text block drawn from inline content at `size`, runs that are not
/// bold drawn at `base_weight`.
pub fn build_inline_element(inline: InlineText, size: TextSize, base_weight: FontWeight) -> (block:
    TextBlock)
    ensures
        text_block_view(block) == inline_block(inline@, size, base_weight),
{
    let ghost state = inline@;
    let (text, runs, links) = inline.into_parts();
    let mut formats: Vec<RunFormat> = Vec::new();
    let mut i: usize = 0;
    while i < runs.len()
        invariant
            i <= runs@.len(),
            runs@ == state.runs,
            formats@.len() == i,
            forall|j: int| 0 <= j < i ==> #[trigger] formats@[j] == run_format(runs@[j], base_weight),
        decreases runs@.len() - i,
    {
        formats.push(format_run(runs[i], base_weight));
        i = i + 1;
    }
    let block = TextBlock { text, runs: formats, links, size };
    assert(block.runs@ =~= state.runs.map_values(|run: StyleRun| run_format(run, base_weight)));
    block
}

/// Places loose inline content as a body text block, unless it is blank,
/// and leaves `pending` empty.
fn flush_inline(pending: &mut InlineText, blocks: &mut Vec<Block>)
    requires
        old(pending).wf(),
    ensures
        final(pending).wf(),
        final(pending)@ == empty_state(),
        blocks_view(final(blocks)@) == flush(blocks_view(old(blocks)@), old(pending)@),
{
    let mut inline = InlineText::new();
    std::mem::swap(&mut inline, pending);
    if !inline.is_empty() {
        let block = Block::Text(build_inline_element(inline, TextSize::Body, FontWeight::Normal));
        proof {
            lemma_blocks_view_push(blocks@, block);
        }
        blocks.push(block);
    }
}

/// Lays out `nodes`, leaving out the node at index `skip`: text and inline
/// elements accumulate into one text block, which a block element, or the
/// end, places before the element's own block.
fn layout(nodes: &Vec<HtmlNode>, skip: Option<usize>) -> (blocks: Vec<Block>)
    ensures
        blocks_view(blocks@) == layout_nodes(nodes@, skip_index(skip)),
    decreases *nodes, 2nat,
{
    let mut blocks: Vec<Block> = Vec::new();
    let mut pending = InlineText::new();
    let mut i: usize = 0;
    while i < nodes.len()
        invariant
            i <= nodes@.len(),
            pending.wf(),
            (blocks_view(blocks@), pending@) == layout_prefix(nodes@.subrange(0, i as int), skip_index(skip)),
        decreases nodes@.len() - i,
    {
        let ghost prefix = nodes@.subrange(0, i as int + 1);
        assert(prefix.subrange(0, i as int) =~= nodes@.subrange(0, i as int));
        assert(prefix[i as int] == nodes@[i as int]);
        let skipped = match skip {
            Some(k) => k == i,
            None => false,
        };
        let ghost previous = layout_prefix(nodes@.subrange(0, i as int), skip_index(skip));
        assert(skipped ==> layout_prefix(prefix, skip_index(skip)) == previous);
        assert(!skipped ==> layout_prefix(prefix, skip_index(skip)) == layout_step(previous, nodes@[i as int]));
        if !skipped {
            let node = &nodes[i];
            match node {
                HtmlNode::Text(text) => {
                    pending.push_text(text.as_str(), InlineStyle { bold: false, italic: false, code: false, link: false });
                },
                HtmlNode::Element(element) => {
                    if is_inline(element.tag) {
                        collect_inline(node, InlineStyle { bold: false, italic: false, code: false, link: false }, &mut pending);
                    } else {
                        flush_inline(&mut pending, &mut blocks);
                        let rendered = render_block(element);
                        if let Some(block) = rendered {
                            proof {
                                lemma_blocks_view_push(blocks@, block);
                            }
                            blocks.push(block);
                        }
                        assert((blocks_view(blocks@), pending@) == layout_step(previous, nodes@[i as int]));
                    }
                },
            }
        }
        i = i + 1;
    }
    assert(nodes@.subrange(0, nodes@.len() as int) =~= nodes@);
    flush_inline(&mut pending, &mut blocks);
    blocks
}

/// Lays out a sequence of nodes as blocks.
pub fn render_nodes(nodes: &Vec<HtmlNode>) -> (blocks: Vec<Block>)
    ensures
        blocks_view(blocks@) == layout_nodes(nodes@, -1),
{
    layout(nodes, None)
}

/// The block that a block-level element lays out to, if any.
pub fn render_block(element: &HtmlElement) -> (block: Option<Block>)
    ensures
        opt_block_view(block) == block_of(*element),
    decreases *element, 1nat,
{
    if let Some(level) = element.tag.heading_level() {
        return Some(render_heading(element, level));
    }
    match element.tag {
        HtmlTag::P | HtmlTag::Dt | HtmlTag::Figcaption => {
            let mut inline = InlineText::new();
            collect_inline_children(&element.children, InlineStyle { bold: false, italic: false, code: false, link: false }, &mut inline);
            if inline.is_empty() {
                return None;
            }
            match element.tag {
                HtmlTag::Dt => {
                    let ghost before = inline@;
                    inline.set_all_bold(true);
                    assert(inline@.runs =~= emphasized(before, true).runs);
                    assert(inline@ =~= emphasized(inline_of(element.children@), true));
                    Some(Block::Text(build_inline_element(inline, TextSize::Body, FontWeight::Normal)))
                },
                HtmlTag::Figcaption => Some(
                    Block::Caption(build_inline_element(inline, TextSize::Small, FontWeight::Normal)),
                ),
                _ => Some(Block::Text(build_inline_element(inline, TextSize::Body, FontWeight::Normal))),
            }
        },
        HtmlTag::Ul | HtmlTag::Ol => Some(render_list(element)),
        HtmlTag::Pre => Some(render_code_block(element)),
        HtmlTag::Table => Some(render_table(element)),
        HtmlTag::Img => Some(render_image(element)),
        HtmlTag::Hr => Some(Block::Rule),
        HtmlTag::Section => Some(render_section(element)),
        _ => {
            let kind = match element.tag {
                HtmlTag::Dl => StackKind::DefinitionList,
                HtmlTag::Dd => StackKind::Definition,
                HtmlTag::Blockquote => StackKind::Quote,
                HtmlTag::Figure => StackKind::Figure,
                HtmlTag::Div | HtmlTag::Header | HtmlTag::Other | HtmlTag::Thead | HtmlTag::Tbody => StackKind::Container,
                _ => StackKind::Plain,
            };
            Some(Block::Stack(kind, layout(&element.children, None)))
        },
    }
}

/// A heading: its inline content, at body size but for the document title,
/// which is set larger; bold (semibold from level 6).
fn render_heading(element: &HtmlElement, level: u8) -> (block: Block)
    requires
        spec_heading_level(element.tag) == Some(level),
    ensures
        block_view(block) == heading_block(*element, level),
{
    let mut inline = InlineText::new();
    collect_inline_children(&element.children, InlineStyle { bold: false, italic: false, code: false, link: false }, &mut inline);
    let size = if element.has_class("lex-doc-title") {
        TextSize::Title
    } else {
        TextSize::Body
    };
    let weight = if level >= 6 {
        FontWeight::Semibold
    } else {
        FontWeight::Bold
    };
    Block::Heading(build_inline_element(inline, size, weight))
}

/// The character of a decimal digit.
fn digit_of(d: usize) -> (c: char)
    requires
        d < 10,
    ensures
        c == digit_char(d as nat),
{
    if d == 0 {
        '0'
    } else if d == 1 {
        '1'
    } else if d == 2 {
        '2'
    } else if d == 3 {
        '3'
    } else if d == 4 {
        '4'
    } else if d == 5 {
        '5'
    } else if d == 6 {
        '6'
    } else if d == 7 {
        '7'
    } else if d == 8 {
        '8'
    } else {
        '9'
    }
}

/// Appends the decimal digits of `n`.
fn push_decimal(out: &mut String, n: usize)
    ensures
        final(out)@ == old(out)@ + decimal(n as nat),
    decreases n,
{
    if n >= 10 {
        push_decimal(out, n / 10);
    }
    crate::text::push_char(out, digit_of(n % 10));
    assert(final(out)@ =~= old(out)@ + decimal(n as nat)) by {
        if n >= 10 {
            assert(decimal(n as nat) == decimal((n / 10) as nat).push(digit_char((n % 10) as nat)));
        }
    }
}

/// The marker of the `index`-th item.
fn list_marker_text(ordered: bool, index: usize) -> (marker: String)
    ensures
        marker@ == list_marker(ordered, index as nat),
{
    let mut marker = String::new();
    if ordered {
        push_decimal(&mut marker, index);
        crate::text::push_char(&mut marker, '.');
    } else {
        crate::text::push_char(&mut marker, '\u{2013}');
    }
    assert(marker@ =~= list_marker(ordered, index as nat));
    marker
}

/// A list: one item per `<li>` child, numbered when the list is ordered.
fn render_list(element: &HtmlElement) -> (block: Block)
    requires
        element.tag == HtmlTag::Ul || element.tag == HtmlTag::Ol,
    ensures
        block_view(block) == BlockView::List(list_items(element.children@, element.tag == HtmlTag::Ol)),
    decreases *element, 0nat,
{
    let ordered = element.tag == HtmlTag::Ol;
    let children = &element.children;
    let mut items: Vec<ListItem> = Vec::new();
    let mut i: usize = 0;
    while i < children.len()
        invariant
            i <= children@.len(),
            children == &element.children,
            ordered == (element.tag == HtmlTag::Ol),
            items_view(items@) == list_items(children@.subrange(0, i as int), ordered),
            items@.len() <= i,
        decreases children@.len() - i,
    {
        let ghost prefix = children@.subrange(0, i as int + 1);
        assert(prefix.subrange(0, i as int) =~= children@.subrange(0, i as int));
        assert(prefix[i as int] == children@[i as int]);
        if let HtmlNode::Element(item) = &children[i] {
            if item.tag == HtmlTag::Li {
                proof {
                    lemma_items_view_len(items@);
                }
                let index = items.len() + 1;
                let marker = list_marker_text(ordered, index);
                let content = layout(&item.children, None);
                let list_item = ListItem { marker, content };
                proof {
                    lemma_items_view_push(items@, list_item);
                    lemma_items_view_len(items@);
                    assert(blocks_view(list_item.content@) == layout_nodes_of(*item));
                }
                items.push(list_item);
                assert(items_view(items@) == list_items(prefix, ordered));
            }
        }
        i = i + 1;
    }
    assert(children@.subrange(0, children@.len() as int) =~= children@);
    Block::List(items)
}

/// The items and their values have the same length.
pub proof fn lemma_items_view_len(items: Seq<ListItem>)
    ensures
        items_view(items).len() == items.len(),
    decreases items.len(),
{
    if items.len() > 0 {
        lemma_items_view_len(items.subrange(0, items.len() - 1));
    }
}

/// Appends the verbatim text of `nodes`.
fn collect_verbatim_text(nodes: &Vec<HtmlNode>, out: &mut String)
    ensures
        final(out)@ == old(out)@ + verbatim(nodes@),
    decreases *nodes,
{
    let ghost start = out@;
    let mut i: usize = 0;
    while i < nodes.len()
        invariant
            i <= nodes@.len(),
            out@ == start + verbatim(nodes@.subrange(0, i as int)),
        decreases nodes@.len() - i,
    {
        let ghost prefix = nodes@.subrange(0, i as int + 1);
        assert(prefix.subrange(0, i as int) =~= nodes@.subrange(0, i as int));
        assert(prefix[i as int] == nodes@[i as int]);
        match &nodes[i] {
            HtmlNode::Text(text) => crate::text::append_str(out, text.as_str()),
            HtmlNode::Element(element) => {
                if element.tag == HtmlTag::Br {
                    crate::text::push_char(out, '\n');
                } else {
                    collect_verbatim_text(&element.children, out);
                }
            },
        }
        assert(out@ =~= start + verbatim(prefix));
        i = i + 1;
    }
    assert(nodes@.subrange(0, nodes@.len() as int) =~= nodes@);
}

/// Removing trailing newlines from a prefix of the text that ends before
/// them gives the same result.
proof fn lemma_trim_prefix(text: Seq<char>, keep: int)
    requires
        0 <= keep <= text.len(),
        forall|j: int| keep <= j < text.len() ==> text[j] == '\n',
    ensures
        trim_trailing_newlines(text) == trim_trailing_newlines(text.subrange(0, keep)),
    decreases text.len(),
{
    if text.len() > keep {
        assert(text.drop_last().subrange(0, keep) =~= text.subrange(0, keep));
        lemma_trim_prefix(text.drop_last(), keep);
    } else {
        assert(text.subrange(0, keep) =~= text);
    }
}

/// The text without its trailing newlines.
fn trim_newlines(text: &String) -> (trimmed: String)
    ensures
        trimmed@ == trim_trailing_newlines(text@),
{
    let chars = crate::text::chars_of(text.as_str());
    let mut keep = chars.len();
    while keep > 0 && chars[keep - 1] == '\n'
        invariant
            keep <= chars@.len(),
            chars@ == text@,
            forall|j: int| keep <= j < chars@.len() ==> chars@[j] == '\n',
        decreases keep,
    {
        keep = keep - 1;
    }
    proof {
        lemma_trim_prefix(text@, keep as int);
    }
    let mut trimmed = String::new();
    let mut i: usize = 0;
    while i < keep
        invariant
            i <= keep <= chars@.len(),
            trimmed@ == chars@.subrange(0, i as int),
        decreases keep - i,
    {
        crate::text::push_char(&mut trimmed, chars[i]);
        assert(trimmed@ =~= chars@.subrange(0, i as int + 1));
        i = i + 1;
    }
    assert(!(keep > 0 && text@.subrange(0, keep as int).last() == '\n'));
    trimmed
}

/// A code block: the content's text taken verbatim, trailing newlines
/// removed, labelled with its language.
fn render_code_block(element: &HtmlElement) -> (block: Block)
    ensures
        block_view(block) == (BlockView::Code {
            language: opt_chars(element.data_language),
            code: trim_trailing_newlines(verbatim(element.children@)),
        }),
{
    let mut code = String::new();
    collect_verbatim_text(&element.children, &mut code);
    assert(code@ =~= verbatim(element.children@));
    let code = trim_newlines(&code);
    let language = match &element.data_language {
        Some(language) => Some(language.clone()),
        None => None,
    };
    Block::Code { language, code }
}

/// The text block of one table cell.
fn cell_text_block(cell: &HtmlElement) -> (block: TextBlock)
    ensures
        text_block_view(block) == cell_block(*cell),
{
    let mut inline = InlineText::new();
    collect_inline_children(&cell.children, InlineStyle { bold: false, italic: false, code: false, link: false }, &mut inline);
    if cell.tag == HtmlTag::Th {
        let ghost before = inline@;
        inline.set_all_bold(false);
        assert(inline@.runs =~= emphasized(before, false).runs);
        assert(inline@ =~= emphasized(inline_of(cell.children@), false));
    }
    build_inline_element(inline, TextSize::Body, FontWeight::Normal)
}

/// The cells of one row.
fn collect_row_cells(children: &Vec<HtmlNode>) -> (cells: Vec<TextBlock>)
    ensures
        cells_view(cells@) == row_cells(children@),
{
    let mut cells: Vec<TextBlock> = Vec::new();
    let mut i: usize = 0;
    while i < children.len()
        invariant
            i <= children@.len(),
            cells_view(cells@) == row_cells(children@.subrange(0, i as int)),
        decreases children@.len() - i,
    {
        let ghost prefix = children@.subrange(0, i as int + 1);
        assert(prefix.subrange(0, i as int) =~= children@.subrange(0, i as int));
        assert(prefix[i as int] == children@[i as int]);
        if let HtmlNode::Element(cell) = &children[i] {
            if cell.tag == HtmlTag::Th || cell.tag == HtmlTag::Td {
                let block = cell_text_block(cell);
                let ghost before = cells@;
                cells.push(block);
                assert(cells_view(cells@) =~= cells_view(before).push(text_block_view(block)));
            }
        }
        i = i + 1;
    }
    assert(children@.subrange(0, children@.len() as int) =~= children@);
    cells
}

/// Appends the rows of a table section, looking into `<thead>` and
/// `<tbody>`.
fn collect_table_rows(children: &Vec<HtmlNode>, rows: &mut Vec<Vec<TextBlock>>)
    ensures
        rows_view(final(rows)@) == rows_view(old(rows)@) + table_rows(children@),
    decreases *children,
{
    let ghost start = rows_view(rows@);
    let mut i: usize = 0;
    while i < children.len()
        invariant
            i <= children@.len(),
            rows_view(rows@) == start + table_rows(children@.subrange(0, i as int)),
        decreases children@.len() - i,
    {
        let ghost prefix = children@.subrange(0, i as int + 1);
        assert(prefix.subrange(0, i as int) =~= children@.subrange(0, i as int));
        assert(prefix[i as int] == children@[i as int]);
        let ghost before = rows_view(rows@);
        if let HtmlNode::Element(child) = &children[i] {
            if child.tag == HtmlTag::Thead || child.tag == HtmlTag::Tbody {
                collect_table_rows(&child.children, rows);
            } else if child.tag == HtmlTag::Tr {
                let cells = collect_row_cells(&child.children);
                if cells.len() > 0 {
                    let ghost old_rows = rows@;
                    rows.push(cells);
                    assert(rows_view(rows@) =~= rows_view(old_rows).push(cells_view(cells@)));
                }
            }
        }
        assert(rows_view(rows@) =~= start + table_rows(prefix));
        i = i + 1;
    }
    assert(children@.subrange(0, children@.len() as int) =~= children@);
}

/// A table: its rows of cells, with a divider below each row but the last.
fn render_table(element: &HtmlElement) -> (block: Block)
    ensures
        block_view(block) == BlockView::Table(with_dividers(table_rows(element.children@))),
{
    let mut rows: Vec<Vec<TextBlock>> = Vec::new();
    collect_table_rows(&element.children, &mut rows);
    let ghost all = rows_view(rows@);
    assert(all =~= table_rows(element.children@));
    let count = rows.len();
    let mut table: Vec<TableRow> = Vec::new();
    let mut remaining = rows;
    let mut taken: Vec<Vec<TextBlock>> = Vec::new();
    let mut i: usize = 0;
    while i < count
        invariant
            i <= count,
            count == all.len(),
            table@.len() == i,
            remaining@.len() == count - i,
            forall|j: int| 0 <= j < remaining@.len() ==> cells_view(#[trigger] remaining@[j]@) == all[i + j],
            forall|j: int| 0 <= j < i ==> #[trigger] table_row_view(table@[j]) == (TableRowView { cells: all[j], divider: j + 1 < count }),
        decreases count - i,
    {
        let cells = remaining.remove(0);
        table.push(TableRow { cells, divider: i + 1 < count });
        i = i + 1;
    }
    let block = Block::Table(table);
    assert(table@.map_values(|row: TableRow| table_row_view(row)) =~= with_dividers(all));
    block
}

/// An image: its source, and the text drawn when it cannot be shown.
fn render_image(element: &HtmlElement) -> (block: Block)
    ensures
        block_view(block) == (BlockView::Image {
            src: opt_chars(element.src),
            placeholder: image_placeholder(*element),
        }),
{
    let placeholder = match &element.alt {
        Some(alt) => alt.clone(),
        None => match &element.src {
            Some(src) => src.clone(),
            None => String::from_str("image"),
        },
    };
    let src = match &element.src {
        Some(src) => Some(src.clone()),
        None => None,
    };
    Block::Image { src, placeholder }
}

/// The file that an image with source `src` is looked for at: an absolute
/// source as it is, a relative one under the document's directory; none
/// when there is no source, or a relative one and no directory.
pub open spec fn image_candidate(src: Option<Seq<char>>, document_dir: Option<Seq<char>>) -> Option<
    Seq<char>,
> {
    match src {
        None => None,
        Some(s) => if is_absolute_path(s) {
            Some(s)
        } else {
            match document_dir {
                Some(dir) => Some(join_path(dir, s)),
                None => None,
            }
        },
    }
}

/// The path at which an image's file is looked for. The image is drawn from
/// that file where one exists there; otherwise, and where there is no such
/// path, its placeholder is drawn.
pub fn image_candidate_path(src: Option<&str>, document_dir: Option<&str>) -> (path: Option<String>)
    ensures
        match path {
            Some(p) => image_candidate(opt_str(src), opt_str(document_dir)) == Some(p@),
            None => image_candidate(opt_str(src), opt_str(document_dir)) is None,
        },
{
    match src {
        None => None,
        Some(s) => if path_is_absolute(s) {
            let mut path = String::new();
            append_str(&mut path, s);
            assert(path@ =~= s@);
            Some(path)
        } else {
            match document_dir {
                Some(dir) => Some(join_relative(dir, s)),
                None => None,
            }
        },
    }
}

/// The characters of an optional string slice.
pub open spec fn opt_str(value: Option<&str>) -> Option<Seq<char>> {
    match value {
        Some(s) => Some(s@),
        None => None,
    }
}

/// The index of the first child that is a heading element.
fn find_first_heading(children: &Vec<HtmlNode>) -> (index: Option<usize>)
    ensures
        match first_heading(children@) {
            Some(k) => index == Some(k as usize),
            None => index is None,
        },
{
    let mut i: usize = 0;
    while i < children.len()
        invariant
            i <= children@.len(),
            first_heading(children@.subrange(0, i as int)) is None,
        decreases children@.len() - i,
    {
        let ghost prefix = children@.subrange(0, i as int + 1);
        assert(prefix.subrange(0, i as int) =~= children@.subrange(0, i as int));
        assert(prefix[i as int] == children@[i as int]);
        if let HtmlNode::Element(child) = &children[i] {
            if child.tag.heading_level().is_some() {
                proof {
                    lemma_first_heading_prefix(children@, i as int + 1);
                }
                return Some(i);
            }
        }
        i = i + 1;
    }
    assert(children@.subrange(0, children@.len() as int) =~= children@);
    None
}

/// Once a prefix holds a heading, the whole sequence has the same first
/// heading.
proof fn lemma_first_heading_prefix(children: Seq<HtmlNode>, k: int)
    requires
        0 <= k <= children.len(),
        first_heading(children.subrange(0, k)) is Some,
    ensures
        first_heading(children) == first_heading(children.subrange(0, k)),
    decreases children.len() - k,
{
    if k < children.len() {
        let shorter = children.subrange(0, children.len() - 1);
        assert(shorter.subrange(0, k) =~= children.subrange(0, k));
        lemma_first_heading_prefix(shorter, k);
    } else {
        assert(children.subrange(0, k) =~= children);
    }
}

/// A section: its first heading child drawn flush, everything else laid
/// out below it, indented.
fn render_section(element: &HtmlElement) -> (block: Block)
    requires
        element.tag == HtmlTag::Section,
    ensures
        opt_block_view(Some(block)) == block_of(*element),
    decreases *element, 0nat,
{
    let children = &element.children;
    proof {
        lemma_first_heading_in_range(children@);
    }
    match find_first_heading(children) {
        Some(k) => {
            let heading = match &children[k] {
                HtmlNode::Element(h) => {
                    let rendered = render_block(h);
                    assert(opt_block_view(rendered) == block_of(*h));
                    match rendered {
                        Some(b) => Some(Box::new(b)),
                        None => None,
                    }
                },
                HtmlNode::Text(_) => None,
            };
            let content = layout(children, Some(k));
            let block = Block::Section { heading, content };
            assert(opt_block_view(Some(block)) == block_of(*element));
            block
        },
        None => {
            let content = layout(children, None);
            Block::Section { heading: None, content }
        },
    }
}


/// The number of `<li>` children.
pub open spec fn li_count(children: Seq<HtmlNode>) -> nat
    decreases children.len(),
{
    if children.len() == 0 {
        0
    } else {
        li_count(children.subrange(0, children.len() - 1)) + match children[children.len() - 1] {
            HtmlNode::Element(item) => if item.tag == HtmlTag::Li {
                1nat
            } else {
                0nat
            },
            HtmlNode::Text(_) => 0nat,
        }
    }
}

/// A list has one item per `<li>` child, and the items are numbered 1, 2,
/// 3, ... in order in an ordered list, each marked with an en dash
/// otherwise.
pub proof fn lemma_list_items_numbered(children: Seq<HtmlNode>, ordered: bool)
    ensures
        list_items(children, ordered).len() == li_count(children),
        forall|k: int|
            0 <= k < list_items(children, ordered).len() ==> #[trigger] list_items(children, ordered)[k].marker
                == list_marker(ordered, (k + 1) as nat),
    decreases children.len(),
{
    if children.len() > 0 {
        lemma_list_items_numbered(children.subrange(0, children.len() - 1), ordered);
    }
}

/// An element outside the subset lays out as a transparent container of
/// its children's blocks, so unknown content is shown rather than lost.
pub proof fn lemma_unknown_elements_render_as_containers(element: HtmlElement)
    requires
        element.tag == HtmlTag::Other,
    ensures
        block_of(element) == Some(BlockView::Stack(StackKind::Container, layout_nodes(element.children@, -1))),
{
}

/// A paragraph, definition term or caption with nothing but whitespace in it
/// lays out to no block at all.
pub proof fn lemma_blank_paragraphs_vanish(element: HtmlElement)
    requires
        element.tag == HtmlTag::P || element.tag == HtmlTag::Dt || element.tag == HtmlTag::Figcaption,
        is_blank(inline_of(element.children@).text),
    ensures
        block_of(element) is None,
{
}

/// Every row of a table has a divider below it except the last.
pub proof fn lemma_dividers_between_rows(rows: Seq<Seq<TextBlockView>>)
    ensures
        with_dividers(rows).len() == rows.len(),
        forall|i: int| 0 <= i < rows.len() ==> (#[trigger] with_dividers(rows)[i]).cells == rows[i]
            && (with_dividers(rows)[i].divider <==> i < rows.len() - 1),
{
}


/// Whether a character is a decimal digit.
pub open spec fn is_digit(c: char) -> bool {
    '0' <= c && c <= '9'
}

/// The number that decimal digits stand for, read most significant first.
pub open spec fn numeral_value(digits: Seq<char>) -> int
    decreases digits.len(),
{
    if digits.len() == 0 {
        0
    } else {
        numeral_value(digits.drop_last()) * 10 + (digits.last() as int - '0' as int)
    }
}

/// The usual base-10 numeral of a number: digits only, no leading zero, and
/// read most significant first they give the number back.
pub proof fn lemma_decimal_reads_back(n: nat)
    ensures
        decimal(n).len() > 0,
        forall|i: int| 0 <= i < decimal(n).len() ==> is_digit(#[trigger] decimal(n)[i]),
        decimal(n)[0] != '0' || n == 0,
        numeral_value(decimal(n)) == n,
    decreases n,
{
    let d = (n % 10) as nat;
    assert(digit_char(d) as int - '0' as int == d);
    if n >= 10 {
        lemma_decimal_reads_back(n / 10);
        let high = decimal(n / 10);
        assert(decimal(n) == high.push(digit_char(d)));
        assert(decimal(n).drop_last() =~= high);
        assert forall|i: int| 0 <= i < decimal(n).len() implies is_digit(#[trigger] decimal(n)[i]) by {
            if i < high.len() {
                assert(decimal(n)[i] == high[i]);
            }
        }
        assert(decimal(n)[0] == high[0]);
        assert(decimal(n).last() == digit_char(d));
        assert(numeral_value(decimal(n)) == numeral_value(high) * 10 + d);
        assert((n / 10) * 10 + d == n);
    } else {
        assert(decimal(n) == seq![digit_char(d)]);
        assert(decimal(n).drop_last() =~= Seq::<char>::empty());
        assert(decimal(n).last() == digit_char(d));
        assert(numeral_value(Seq::<char>::empty()) == 0);
        assert(numeral_value(decimal(n)) == d);
    }
}

/// The items of an ordered list are marked with the usual base-10 numerals
/// of 1, 2, 3, ... followed by '.': the marker of the `k`-th item, read
/// most significant digit first, gives back `k`, for every `k`.
pub proof fn lemma_ordered_markers_are_numerals(children: Seq<HtmlNode>)
    ensures
        forall|k: int|
            0 <= k < list_items(children, true).len() ==> {
                let marker = #[trigger] list_items(children, true)[k].marker;
                &&& marker.len() >= 2
                &&& marker.last() == '.'
                &&& forall|i: int| 0 <= i < marker.len() - 1 ==> is_digit(marker[i])
                &&& marker[0] != '0'
                &&& numeral_value(marker.drop_last()) == k + 1
            },
{
    lemma_list_items_numbered(children, true);
    assert forall|k: int| 0 <= k < list_items(children, true).len() implies {
        let marker = #[trigger] list_items(children, true)[k].marker;
        &&& marker.len() >= 2
        &&& marker.last() == '.'
        &&& forall|i: int| 0 <= i < marker.len() - 1 ==> is_digit(marker[i])
        &&& marker[0] != '0'
        &&& numeral_value(marker.drop_last()) == k + 1
    } by {
        let n = (k + 1) as nat;
        lemma_decimal_reads_back(n);
        let marker = list_items(children, true)[k].marker;
        assert(marker == decimal(n).push('.'));
        assert(marker.drop_last() =~= decimal(n));
        assert forall|i: int| 0 <= i < marker.len() - 1 implies is_digit(marker[i]) by {
            assert(marker[i] == decimal(n)[i]);
        }
        assert(marker[0] == decimal(n)[0]);
    }
}

/// The rows of a table come in document order: the rows of a concatenation
/// of children are the rows of the first part followed by those of the
/// second.
pub proof fn lemma_table_rows_concat(a: Seq<HtmlNode>, b: Seq<HtmlNode>)
    ensures
        table_rows(a + b) == table_rows(a) + table_rows(b),
    decreases b.len(),
{
    if b.len() == 0 {
        assert(a + b =~= a);
        assert(table_rows(a) + table_rows(b) =~= table_rows(a));
    } else {
        let shorter = b.subrange(0, b.len() - 1);
        lemma_table_rows_concat(a, shorter);
        assert((a + b).subrange(0, (a + b).len() - 1) =~= a + shorter);
        assert((a + b)[(a + b).len() - 1] == b[b.len() - 1]);
        let rows_b = table_rows(b);
        let rows_shorter = table_rows(shorter);
        match b[b.len() - 1] {
            HtmlNode::Element(child) => {
                if child.tag == HtmlTag::Thead || child.tag == HtmlTag::Tbody {
                    assert(table_rows(a) + rows_b =~= table_rows(a) + rows_shorter + table_rows(
                        child.children@,
                    ));
                } else if child.tag == HtmlTag::Tr && row_cells(child.children@).len() > 0 {
                    assert(table_rows(a) + rows_b =~= (table_rows(a) + rows_shorter).push(
                        row_cells(child.children@),
                    ));
                }
            },
            HtmlNode::Text(_) => {},
        }
    }
}

/// A `<tr>` child with cells is one row, those cells; a `<thead>` or
/// `<tbody>` child contributes the rows inside it.
pub proof fn lemma_table_rows_single(child: HtmlElement)
    ensures
        child.tag == HtmlTag::Tr && row_cells(child.children@).len() > 0 ==> table_rows(
            seq![HtmlNode::Element(child)],
        ) == seq![row_cells(child.children@)],
        child.tag == HtmlTag::Thead || child.tag == HtmlTag::Tbody ==> table_rows(
            seq![HtmlNode::Element(child)],
        ) == table_rows(child.children@),
{
    let one = seq![HtmlNode::Element(child)];
    assert(one.subrange(0, one.len() - 1) =~= Seq::<HtmlNode>::empty());
    assert(table_rows(Seq::<HtmlNode>::empty()) == Seq::<Seq<TextBlockView>>::empty());
    assert(one[one.len() - 1] == HtmlNode::Element(child));
    if child.tag == HtmlTag::Tr && row_cells(child.children@).len() > 0 {
        assert(Seq::<Seq<TextBlockView>>::empty().push(row_cells(child.children@)) =~= seq![
            row_cells(child.children@),
        ]);
    }
    if child.tag == HtmlTag::Thead || child.tag == HtmlTag::Tbody {
        assert(Seq::<Seq<TextBlockView>>::empty() + table_rows(child.children@) =~= table_rows(
            child.children@,
        ));
    }
}

/// The cells of a row come in document order.
pub proof fn lemma_row_cells_concat(a: Seq<HtmlNode>, b: Seq<HtmlNode>)
    ensures
        row_cells(a + b) == row_cells(a) + row_cells(b),
    decreases b.len(),
{
    if b.len() == 0 {
        assert(a + b =~= a);
        assert(row_cells(a) + row_cells(b) =~= row_cells(a));
    } else {
        let shorter = b.subrange(0, b.len() - 1);
        lemma_row_cells_concat(a, shorter);
        assert((a + b).subrange(0, (a + b).len() - 1) =~= a + shorter);
        assert((a + b)[(a + b).len() - 1] == b[b.len() - 1]);
        match b[b.len() - 1] {
            HtmlNode::Element(cell) => {
                if cell.tag == HtmlTag::Th || cell.tag == HtmlTag::Td {
                    assert(row_cells(a) + row_cells(b) =~= (row_cells(a) + row_cells(shorter)).push(
                        cell_block(cell),
                    ));
                }
            },
            HtmlNode::Text(_) => {},
        }
    }
}

/// A heading holds the inline content of all its children, in order: its
/// text and links are those of a paragraph with the same children, its runs
/// cover the same byte ranges in the same code, italic and link styles, and
/// where that paragraph would be blank the heading text is blank too.
pub proof fn lemma_heading_text_is_paragraph_text(element: HtmlElement)
    requires
        spec_heading_level(element.tag) is Some,
    ensures
        ({
            let paragraph = HtmlElement { tag: HtmlTag::P, ..element };
            block_of(element) matches Some(BlockView::Heading(heading)) && match block_of(paragraph) {
                Some(BlockView::Text(text)) => {
                    &&& heading.text == text.text
                    &&& heading.links == text.links
                    &&& heading.runs.len() == text.runs.len()
                    &&& forall|i: int|
                        0 <= i < heading.runs.len() ==> (#[trigger] heading.runs[i]).len
                            == text.runs[i].len && heading.runs[i].code_font == text.runs[i].code_font
                            && heading.runs[i].italic == text.runs[i].italic
                            && heading.runs[i].link_color == text.runs[i].link_color
                },
                None => is_blank(heading.text),
                _ => false,
            }
        }),
{
    let paragraph = HtmlElement { tag: HtmlTag::P, ..element };
    assert(spec_heading_level(HtmlTag::P) is None);
    assert(paragraph.children@ == element.children@);
}

} // verus!
