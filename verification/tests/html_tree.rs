use lex_preview::html_tree::{parse_html_document, HtmlDocumentError, HtmlElement, HtmlNode, HtmlTag};

fn parse_body(html: &str) -> Vec<HtmlNode> {
    parse_html_document(html).expect("parse must succeed")
}

fn as_element(node: &HtmlNode) -> &HtmlElement {
    match node {
        HtmlNode::Element(element) => element,
        HtmlNode::Text(text) => panic!("expected element, got text {text:?}"),
    }
}

fn elements_of(nodes: &[HtmlNode]) -> Vec<&HtmlElement> {
    nodes
        .iter()
        .filter_map(|node| match node {
            HtmlNode::Element(element) => Some(element),
            _ => None,
        })
        .collect()
}

#[test]
fn parses_lex_export_shape() {
    let html = r#"<!DOCTYPE html>
        <html><head><title>Doc</title><style>p { color: red; }</style></head>
        <body><div class="lex-document">
        <header class="lex-doc-header"><h1 class="lex-doc-title">Doc</h1></header>
        <p class="lex-paragraph">Hello <strong>bold</strong> and <em>italic</em>.</p>
        <section class="lex-session lex-session-2"><h2>Section:</h2>
        <ul class="lex-list"><li class="lex-list-item">one</li></ul></section>
        </div></body></html>"#;

    let nodes = parse_body(html);
    let document = as_element(
        nodes
            .iter()
            .find(|node| matches!(node, HtmlNode::Element(_)))
            .expect("has element"),
    );
    assert_eq!(document.tag, HtmlTag::Div);
    assert!(document.has_class("lex-document"));

    let elements = elements_of(&document.children);
    assert_eq!(elements[0].tag, HtmlTag::Header);
    assert_eq!(elements[1].tag, HtmlTag::P);
    assert_eq!(elements[2].tag, HtmlTag::Section);
    assert!(elements[2].has_class("lex-session"));
}

#[test]
fn skips_head_only_tags_and_keeps_unknown_elements() {
    let html = "<body><style>x</style><widget><p>inner</p></widget></body>";
    let nodes = parse_body(html);
    let elements = elements_of(&nodes);
    assert_eq!(elements.len(), 1);
    assert_eq!(elements[0].tag, HtmlTag::Other);
    assert_eq!(as_element(&elements[0].children[0]).tag, HtmlTag::P);
}

#[test]
fn captures_link_image_and_language_attributes() {
    let html = r#"<body>
        <p><a href="https://lex.ing">site</a></p>
        <pre class="lex-verbatim" data-language="rust"><code>fn main() {}</code></pre>
        <figure><img src="pic.png" alt="A picture"><figcaption>cap</figcaption></figure>
        </body>"#;
    let nodes = parse_body(html);
    let elements = elements_of(&nodes);

    let link = as_element(&elements[0].children[0]);
    assert_eq!(link.tag, HtmlTag::A);
    assert_eq!(link.href.as_deref(), Some("https://lex.ing"));

    assert_eq!(elements[1].data_language.as_deref(), Some("rust"));

    let image = as_element(&elements[2].children[0]);
    assert_eq!(image.tag, HtmlTag::Img);
    assert_eq!(image.src.as_deref(), Some("pic.png"));
    assert_eq!(image.alt.as_deref(), Some("A picture"));
}

#[test]
fn tag_names_map_to_tags() {
    assert_eq!(HtmlTag::from_name("h1"), HtmlTag::H1);
    assert_eq!(HtmlTag::from_name("h6"), HtmlTag::H6);
    assert_eq!(HtmlTag::from_name("blockquote"), HtmlTag::Blockquote);
    assert_eq!(HtmlTag::from_name("figcaption"), HtmlTag::Figcaption);
    assert_eq!(HtmlTag::from_name("br"), HtmlTag::Br);
    assert_eq!(HtmlTag::from_name("H1"), HtmlTag::Other);
    assert_eq!(HtmlTag::from_name("h7"), HtmlTag::Other);
    assert_eq!(HtmlTag::from_name(""), HtmlTag::Other);
    assert_eq!(HtmlTag::from_name("widget"), HtmlTag::Other);
}

#[test]
fn heading_levels_of_heading_tags_only() {
    assert_eq!(HtmlTag::H1.heading_level(), Some(1));
    assert_eq!(HtmlTag::H2.heading_level(), Some(2));
    assert_eq!(HtmlTag::H3.heading_level(), Some(3));
    assert_eq!(HtmlTag::H4.heading_level(), Some(4));
    assert_eq!(HtmlTag::H5.heading_level(), Some(5));
    assert_eq!(HtmlTag::H6.heading_level(), Some(6));
    assert_eq!(HtmlTag::P.heading_level(), None);
    assert_eq!(HtmlTag::Other.heading_level(), None);
    for level in 1u8..=6 {
        let name = format!("h{level}");
        assert_eq!(HtmlTag::from_name(&name).heading_level(), Some(level));
    }
}

#[test]
fn class_matching_is_by_whole_names() {
    let mut element = HtmlElement::default();
    assert!(!element.has_class("lex-document"));
    element.class = Some(" lex-session\tlex-session-2\n".to_string());
    assert!(element.has_class("lex-session"));
    assert!(element.has_class("lex-session-2"));
    assert!(!element.has_class("lex"));
    assert!(!element.has_class("session"));
    assert!(!element.has_class(""));
    assert!(!element.has_class("lex-session lex-session-2"));
    element.class = Some(String::new());
    assert!(!element.has_class(""));
}

#[test]
fn document_without_body_is_an_error() {
    let result = parse_html_document("<html><head></head><frameset><frame src=\"a\"></frameset></html>");
    assert!(matches!(result, Err(HtmlDocumentError::MissingBody)));
    assert_eq!(
        HtmlDocumentError::MissingBody.message(),
        "HTML document has no body"
    );
}

#[test]
fn text_and_unknown_names_survive_conversion() {
    let nodes = parse_body("<body>plain<widget x=\"1\">in</widget><script>no</script><title>t</title></body>");
    assert_eq!(nodes.len(), 2);
    match &nodes[0] {
        HtmlNode::Text(text) => assert_eq!(text, "plain"),
        _ => panic!("expected text"),
    }
    let widget = as_element(&nodes[1]);
    assert_eq!(widget.tag, HtmlTag::Other);
    assert_eq!(widget.class, None);
    match &widget.children[0] {
        HtmlNode::Text(text) => assert_eq!(text, "in"),
        _ => panic!("expected text"),
    }
}

#[test]
fn only_the_read_attributes_are_kept() {
    let nodes = parse_body(
        "<body><a class=\"c\" href=\"h\" src=\"s\" alt=\"a\" data-language=\"l\" title=\"t\">x</a></body>",
    );
    let link = as_element(&nodes[0]);
    assert_eq!(link.tag, HtmlTag::A);
    assert_eq!(link.class.as_deref(), Some("c"));
    assert_eq!(link.href.as_deref(), Some("h"));
    assert_eq!(link.src.as_deref(), Some("s"));
    assert_eq!(link.alt.as_deref(), Some("a"));
    assert_eq!(link.data_language.as_deref(), Some("l"));
}

#[test]
fn clones_are_deep_and_equal() {
    let nodes = parse_body("<body><p class=\"c\">a <em>b</em></p></body>");
    let copy = nodes[0].clone();
    assert_eq!(format!("{copy:?}"), format!("{:?}", nodes[0]));
    let element = as_element(&nodes[0]).clone();
    assert_eq!(element.tag, HtmlTag::P);
    assert_eq!(element.class.as_deref(), Some("c"));
    assert_eq!(element.children.len(), 2);
}

#[test]
fn parses_input_longer_than_one_chunk() {
    // Multi-byte characters across many chunk boundaries, and an element
    // that starts in one chunk and ends in another.
    let text: String = "é—a".repeat(3000);
    let html = format!("<body><p class=\"long\">{text}</p><p>after</p></body>");
    assert!(html.len() > 3 * 4096);
    let nodes = parse_body(&html);
    let elements = elements_of(&nodes);
    assert_eq!(elements.len(), 2);
    assert_eq!(elements[0].tag, HtmlTag::P);
    assert!(elements[0].has_class("long"));
    match &elements[0].children[..] {
        [HtmlNode::Text(contents)] => assert_eq!(contents, &text),
        other => panic!("expected one text node, got {other:?}"),
    }
    match &elements[1].children[..] {
        [HtmlNode::Text(contents)] => assert_eq!(contents, "after"),
        other => panic!("expected one text node, got {other:?}"),
    }
}
