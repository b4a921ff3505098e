//! Verified core of the Lex preview: the HTML subset tree, its conversion
//! from a parsed document, and the layout decisions of the preview pane.
pub mod bundled;
pub mod dom;
pub mod html_tree;
pub mod inline;
pub mod paths;
pub mod preview;
pub mod render;
pub mod text;
pub mod toolbar;
