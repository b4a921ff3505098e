use lex_preview::html_tree::{parse_html_document, HtmlElement, HtmlNode, HtmlTag};
use lex_preview::render::{render_block, render_nodes, Block, FontWeight, StackKind, TextBlock, TextSize};

fn layout(html: &str) -> Vec<Block> {
    render_nodes(&parse_html_document(html).expect("parse"))
}

fn text_of(block: &Block) -> &TextBlock {
    match block {
        Block::Text(text) | Block::Heading(text) | Block::Caption(text) => text,
        other => panic!("expected text, got {other:?}"),
    }
}

#[test]
fn paragraph_runs_and_weights() {
    let blocks = layout("<body><p>Hello <strong>bold</strong> world</p></body>");
    assert_eq!(blocks.len(), 1);
    let Block::Text(text) = &blocks[0] else { panic!("expected body text") };
    assert_eq!(text.text, "Hello bold world");
    assert_eq!(text.size, TextSize::Body);
    let lens: Vec<usize> = text.runs.iter().map(|run| run.len).collect();
    assert_eq!(lens, vec![6, 4, 6]);
    let weights: Vec<FontWeight> = text.runs.iter().map(|run| run.weight).collect();
    assert_eq!(weights, vec![FontWeight::Normal, FontWeight::Bold, FontWeight::Normal]);
}

#[test]
fn links_are_colored_underlined_and_clickable() {
    let blocks = layout("<body><p>see <a href=\"https://lex.ing\">site</a></p></body>");
    let text = text_of(&blocks[0]);
    assert_eq!(text.text, "see site");
    assert!(!text.runs[0].link_color && !text.runs[0].underline);
    assert!(text.runs[1].link_color && text.runs[1].underline);
    assert_eq!(text.links.len(), 1);
    assert_eq!((text.links[0].start, text.links[0].end), (4, 8));
    assert_eq!(text.links[0].url, "https://lex.ing");
}

#[test]
fn code_runs_use_the_code_font_and_background() {
    let blocks = layout("<body><p>a <code>b</code></p></body>");
    let text = text_of(&blocks[0]);
    assert!(!text.runs[0].code_font);
    assert!(text.runs[1].code_font && text.runs[1].code_background);
}

#[test]
fn ordered_lists_are_numbered_and_unordered_dashed() {
    let blocks = layout("<body><ol><li>one</li>x<li>two</li><li>three</li></ol><ul><li>a</li></ul></body>");
    assert_eq!(blocks.len(), 2);
    let Block::List(items) = &blocks[0] else { panic!("expected list") };
    let markers: Vec<&str> = items.iter().map(|item| item.marker.as_str()).collect();
    assert_eq!(markers, vec!["1.", "2.", "3."]);
    assert_eq!(text_of(&items[1].content[0]).text, "two");
    let Block::List(items) = &blocks[1] else { panic!("expected list") };
    assert_eq!(items[0].marker, "\u{2013}");
}

#[test]
fn code_blocks_are_verbatim_without_trailing_newlines() {
    let blocks = layout("<body><pre data-language=\"rust\"><code>fn main() {\n    x<br>y\n}\n\n</code></pre></body>");
    let Block::Code { language, code } = &blocks[0] else { panic!("expected code") };
    assert_eq!(language.as_deref(), Some("rust"));
    assert_eq!(code, "fn main() {\n    x\ny\n}");
}

#[test]
fn tables_collect_rows_through_sections() {
    let blocks = layout(
        "<body><table><thead><tr><th>H</th><th>I</th></tr></thead><tbody><tr><td>a</td><td>b</td></tr><tr></tr></tbody></table></body>",
    );
    let Block::Table(rows) = &blocks[0] else { panic!("expected table") };
    assert_eq!(rows.len(), 2);
    assert!(rows[0].divider);
    assert!(!rows[1].divider);
    assert_eq!(rows[0].cells[0].text, "H");
    assert_eq!(rows[0].cells[0].runs[0].weight, FontWeight::Bold);
    assert_eq!(rows[1].cells[1].text, "b");
    assert_eq!(rows[1].cells[1].runs[0].weight, FontWeight::Normal);
}

#[test]
fn image_placeholders_fall_back_from_alt_to_src() {
    let blocks = layout("<body><img src=\"pic.png\" alt=\"A picture\"><img src=\"b.png\"><img></body>");
    let placeholders: Vec<(Option<&str>, &str)> = blocks
        .iter()
        .map(|block| match block {
            Block::Image { src, placeholder } => (src.as_deref(), placeholder.as_str()),
            other => panic!("expected image, got {other:?}"),
        })
        .collect();
    assert_eq!(
        placeholders,
        vec![(Some("pic.png"), "A picture"), (Some("b.png"), "b.png"), (None, "image")]
    );
}

#[test]
fn sections_lift_their_first_heading() {
    let blocks = layout("<body><section>a<h2>Title</h2>b<h3>Sub</h3></section></body>");
    let Block::Section { heading, content } = &blocks[0] else { panic!("expected section") };
    let heading = heading.as_ref().expect("heading");
    let Block::Heading(title) = heading.as_ref() else { panic!("expected heading") };
    assert_eq!(title.text, "Title");
    assert_eq!(title.size, TextSize::Body);
    assert_eq!(content.len(), 2);
    assert_eq!(text_of(&content[0]).text, "ab");
    assert_eq!(text_of(&content[1]).text, "Sub");
}

#[test]
fn heading_sizes_and_weights() {
    let blocks = layout(
        "<body><h1 class=\"lex-doc-title\">Doc</h1><h1>One</h1><h2>Two</h2><h3>Three</h3><h6>Six</h6></body>",
    );
    let sizes: Vec<TextSize> = blocks.iter().map(|block| text_of(block).size).collect();
    assert_eq!(
        sizes,
        vec![TextSize::Title, TextSize::Body, TextSize::Body, TextSize::Body, TextSize::Body]
    );
    assert_eq!(text_of(&blocks[3]).runs[0].weight, FontWeight::Bold);
    assert_eq!(text_of(&blocks[4]).runs[0].weight, FontWeight::Semibold);
    assert_eq!(TextSize::Title.rem_thousandths(), 1400);
    assert_eq!(TextSize::Body.rem_thousandths(), 1000);
    assert_eq!(TextSize::Small.rem_thousandths(), 875);
}

#[test]
fn blank_paragraphs_vanish_and_unknown_elements_contain() {
    let blocks = layout("<body><p>  \n </p><widget><p>inner</p></widget><hr></body>");
    assert_eq!(blocks.len(), 2);
    let Block::Stack(kind, children) = &blocks[0] else { panic!("expected stack") };
    assert_eq!(*kind, StackKind::Container);
    assert_eq!(text_of(&children[0]).text, "inner");
    assert!(matches!(blocks[1], Block::Rule));
}

#[test]
fn definitions_captions_and_quotes() {
    let blocks = layout(
        "<body><dl><dt>Term</dt><dd>Def</dd></dl><figure><figcaption>cap</figcaption></figure><blockquote><p>q</p></blockquote><li>loose</li></body>",
    );
    let Block::Stack(StackKind::DefinitionList, terms) = &blocks[0] else { panic!("expected dl") };
    let term = text_of(&terms[0]);
    assert_eq!(term.text, "Term");
    assert_eq!(term.runs[0].weight, FontWeight::Bold);
    assert!(term.runs[0].italic);
    assert!(matches!(&terms[1], Block::Stack(StackKind::Definition, _)));
    let Block::Stack(StackKind::Figure, figure) = &blocks[1] else { panic!("expected figure") };
    let Block::Caption(caption) = &figure[0] else { panic!("expected caption") };
    assert_eq!(caption.size, TextSize::Small);
    assert!(matches!(&blocks[2], Block::Stack(StackKind::Quote, _)));
    assert!(matches!(&blocks[3], Block::Stack(StackKind::Plain, _)));
}

#[test]
fn loose_inline_content_is_gathered_between_blocks() {
    let blocks = layout("<body>loose <em>text</em><p>para</p>tail <br></body>");
    assert_eq!(blocks.len(), 3);
    assert_eq!(text_of(&blocks[0]).text, "loose text");
    assert!(text_of(&blocks[0]).runs[1].italic);
    assert_eq!(text_of(&blocks[1]).text, "para");
    assert_eq!(text_of(&blocks[2]).text, "tail \n");
}

#[test]
fn render_block_of_a_blank_paragraph_is_none() {
    let element = HtmlElement {
        tag: HtmlTag::P,
        children: vec![HtmlNode::Text("   ".to_string())],
        ..HtmlElement::default()
    };
    assert!(render_block(&element).is_none());
}
