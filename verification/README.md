# lex_preview

The verified core of Lexed's native preview for Lex documents and of its
bundled-extension installer.

The preview asks the lex-lsp language server to export a buffer as HTML,
parses the bounded HTML subset that lex-babel emits, and lays it out as
blocks of styled text. This crate holds every decision in that pipeline,
each with a contract proved by Verus:

- `src/dom.rs` — the parsed document as html5ever's DOM holds it, and the
  trusted reads of it (the only place html5ever is called). HTML of at most
  a third of `u32::MAX` bytes is fed to the parser in chunks of at most
  4 KiB that end on character boundaries.
- `src/html_tree.rs` — the HTML subset (`HtmlTag`, `HtmlElement`,
  `HtmlNode`) and the conversion of a parsed document's `<body>` into it.
- `src/inline.rs` — inline content: whitespace collapsing, styled runs over
  byte ranges, link ranges.
- `src/render.rs` — the layout of the subset as `Block`s: paragraphs,
  headings, lists, code, tables, images (and the path an image's file is
  looked for at), sections.
- `src/paths.rs` — `/`-separated paths: a path's file name, whether it is
  absolute, and joining a relative path to a directory.
- `src/preview.rs` — which files are previewed, the export request, what
  the pane shows for each answer, refreshing, which buffer a following
  preview switches to, and pane placement.
- `src/toolbar.rs` — the toolbar preview button's decisions.
- `src/bundled.rs` — bundled extension ids, their files, and when an
  installed copy is replaced.
- `src/text.rs` — character-level helpers over `str` and `String`.

`app/` holds what is not verified: copying the embedded extension files to
disk, reading manifests, the language-server wire format, and testing
whether an image file exists.
