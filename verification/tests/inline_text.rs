use lex_preview::html_tree::{parse_html_document, HtmlNode, HtmlTag};
use lex_preview::inline::{collect_inline, is_inline, InlineStyle, InlineText, StyleRun};

fn plain() -> InlineStyle {
    InlineStyle::default()
}

fn bold() -> InlineStyle {
    InlineStyle { bold: true, ..InlineStyle::default() }
}

#[test]
fn whitespace_collapses_and_leading_whitespace_drops() {
    let mut inline = InlineText::new();
    inline.push_text("  a  b\n\tc ", plain());
    assert_eq!(inline.text(), "a b c ");
    assert_eq!(inline.runs(), &vec![StyleRun { start: 0, end: 6, style: plain() }]);
    inline.push_text("   d", plain());
    assert_eq!(inline.text(), "a b c d");
}

#[test]
fn whitespace_after_a_line_break_drops() {
    let mut inline = InlineText::new();
    inline.push_text("a", plain());
    inline.push_char('\n', plain());
    inline.push_text("  b", plain());
    assert_eq!(inline.text(), "a\nb");
}

#[test]
fn runs_merge_when_style_continues() {
    let mut inline = InlineText::new();
    inline.push_char('x', bold());
    inline.push_char('y', bold());
    inline.push_char('z', plain());
    assert_eq!(
        inline.runs(),
        &vec![
            StyleRun { start: 0, end: 2, style: bold() },
            StyleRun { start: 2, end: 3, style: plain() },
        ]
    );
}

#[test]
fn run_ranges_count_bytes() {
    let mut inline = InlineText::new();
    inline.push_text("é€", plain());
    assert_eq!(inline.text(), "é€");
    assert_eq!(inline.byte_len(), 5);
    assert_eq!(inline.runs(), &vec![StyleRun { start: 0, end: 5, style: plain() }]);
}

#[test]
fn blank_content_is_empty() {
    let mut inline = InlineText::new();
    assert!(inline.is_empty());
    inline.push_char('\n', plain());
    assert!(inline.is_empty());
    inline.push_text("x", plain());
    assert!(!inline.is_empty());
}

#[test]
fn inline_tags() {
    for tag in [HtmlTag::A, HtmlTag::Em, HtmlTag::Strong, HtmlTag::Code, HtmlTag::Span, HtmlTag::Br] {
        assert!(is_inline(tag));
    }
    for tag in [HtmlTag::P, HtmlTag::Img, HtmlTag::Div, HtmlTag::Other, HtmlTag::Li] {
        assert!(!is_inline(tag));
    }
}

#[test]
fn collecting_styles_links_breaks_and_images() {
    let nodes = parse_html_document(
        "<body><span>see <a href=\"https://lex.ing\"><em>the</em> site</a><br><code>x</code><img alt=\"pic\"></span></body>",
    )
    .expect("parse");
    let mut inline = InlineText::new();
    for node in &nodes {
        collect_inline(node, plain(), &mut inline);
    }
    assert_eq!(inline.text(), "see the site\nxpic");
    let link = InlineStyle { link: true, ..plain() };
    let link_italic = InlineStyle { link: true, italic: true, ..plain() };
    let code = InlineStyle { code: true, ..plain() };
    assert_eq!(
        inline.runs(),
        &vec![
            StyleRun { start: 0, end: 4, style: plain() },
            StyleRun { start: 4, end: 7, style: link_italic },
            StyleRun { start: 7, end: 12, style: link },
            StyleRun { start: 12, end: 13, style: plain() },
            StyleRun { start: 13, end: 14, style: code },
            StyleRun { start: 14, end: 17, style: plain() },
        ]
    );
    assert_eq!(inline.links().len(), 1);
    assert_eq!(inline.links()[0].start, 4);
    assert_eq!(inline.links()[0].end, 12);
    assert_eq!(inline.links()[0].url, "https://lex.ing");
}

#[test]
fn runs_tile_collected_text() {
    let nodes = parse_html_document(
        "<body><p>Hello <strong>bold</strong> and <em>italic</em>.  <a href=\"u\">l</a></p></body>",
    )
    .expect("parse");
    let mut inline = InlineText::new();
    if let HtmlNode::Element(paragraph) = &nodes[0] {
        for node in &paragraph.children {
            collect_inline(node, plain(), &mut inline);
        }
    }
    let runs = inline.runs();
    assert_eq!(runs[0].start, 0);
    for pair in runs.windows(2) {
        assert_eq!(pair[0].end, pair[1].start);
        assert_ne!(pair[0].style, pair[1].style);
    }
    assert_eq!(runs.last().unwrap().end, inline.text().len());
    assert!(!inline.text().contains("  "));
}
