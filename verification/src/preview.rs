//! The decisions of the preview pane: which files it previews, how it asks
//! the lex-lsp language server for HTML, what it shows for each answer,
//! when it refreshes, and where it opens.
use vstd::prelude::*;

use crate::html_tree::{
    body_nodes_of, nodes_view, parse_html_document, HtmlDocumentError, HtmlNode, HtmlNodeView,
};
use crate::dom::{parsed_document, MAX_HTML_BYTES};
use crate::render::{blocks_view, layout_nodes, render_nodes, Block, BlockView};
use crate::paths::{file_name_of_path, lemma_file_name_has_no_separator, path_file_name};
use crate::text::{chars_of, str_equals, utf8_len};

verus! {

/// The language server name registered by the bundled Lex extension.
pub const LEX_LANGUAGE_SERVER_NAME: &'static str = "lex-lsp";

/// The lex-lsp workspace command that serializes a document to another
/// format.
pub const EXPORT_COMMAND: &'static str = "lex.export";

/// The telemetry event of opening a preview.
pub const TELEMETRY_EVENT_TEXT: &'static str = "lex preview: open";

/// How long edits settle before the preview refreshes, in milliseconds.
pub const REFRESH_DEBOUNCE_MILLIS: u64 = 200;

/// What the preview shows.
#[derive(Debug, Clone, Copy, PartialEq, Eq, Structural)]
pub enum LexPreviewMode {
    /// The preview always shows the contents of the provided editor.
    Default,
    /// The preview "follows" the last active editor of a lex file.
    Follow,
}

/// A character in ASCII lower case.
pub open spec fn ascii_lower(c: char) -> char {
    if 'A' <= c && c <= 'Z' {
        ((c as u32) + 32) as char
    } else {
        c
    }
}

/// Equality up to ASCII case, as `eq_ignore_ascii_case` decides it.
pub open spec fn eq_ignore_ascii_case(a: Seq<char>, b: Seq<char>) -> bool {
    a.len() == b.len() && forall|i: int| 0 <= i < a.len() ==> ascii_lower(#[trigger] a[i]) == ascii_lower(b[i])
}

/// The name has an extension, as `Path::extension` finds it in a file name:
/// the text after the last '.', provided that text before that dot is not
/// empty; and the extension is "lex" in any ASCII case.
pub open spec fn has_lex_extension(name: Seq<char>) -> bool {
    exists|k: int|
        0 < k < name.len() && #[trigger] name[k] == '.' && (forall|j: int| k < j < name.len() ==> name[j] != '.')
            && eq_ignore_ascii_case(name.subrange(k + 1, name.len() as int), "lex"@)
}

/// Whether `c` is `lower` in either ASCII case, for an ASCII lower-case
/// letter `lower`.
fn is_letter_ignoring_case(c: char, lower: char, upper: char) -> (same: bool)
    requires
        'a' <= lower <= 'z',
        upper as u32 + 32 == lower as u32,
    ensures
        same == (ascii_lower(c) == ascii_lower(lower)),
{
    proof {
        if 'A' <= c && c <= 'Z' {
            assert(((c as u32) + 32) as char == lower <==> c as u32 == upper as u32);
        }
    }
    c == lower || c == upper
}

/// Whether a file name (one path component) has the extension "lex", in
/// any ASCII case.
pub fn is_lex_file_name(file_name: &str) -> (lex: bool)
    requires
        forall|i: int| 0 <= i < file_name@.len() ==> #[trigger] file_name@[i] != '/',
    ensures
        lex == has_lex_extension(file_name@),
{
    let chars = chars_of(file_name);
    let n = chars.len();
    let mut k = n;
    while k > 0 && chars[k - 1] != '.'
        invariant
            k <= n,
            n == chars@.len(),
            chars@ == file_name@,
            forall|j: int| k <= j < n ==> chars@[j] != '.',
        decreases k,
    {
        k = k - 1;
    }
    if k <= 1 {
        assert forall|m: int| !(0 < m < n && #[trigger] chars@[m] == '.' && (forall|j: int|
            m < j < n ==> chars@[j] != '.') && eq_ignore_ascii_case(
            chars@.subrange(m + 1, n as int),
            "lex"@,
        )) by {
            if 0 < m < n && chars@[m] == '.' && (forall|j: int| m < j < n ==> chars@[j] != '.') {
                assert(m == k - 1);
            }
        }
        return false;
    }
    let dot = k - 1;
    proof {
        reveal_strlit("lex");
    }
    let lex = n - k == 3 && is_letter_ignoring_case(chars[k], 'l', 'L') && is_letter_ignoring_case(
        chars[k + 1],
        'e',
        'E',
    ) && is_letter_ignoring_case(chars[k + 2], 'x', 'X');
    let ghost ext = chars@.subrange(k as int, n as int);
    assert(lex == eq_ignore_ascii_case(ext, "lex"@)) by {
        if n - k == 3 {
            assert(ext[0] == chars@[k as int]);
            assert(ext[1] == chars@[k + 1]);
            assert(ext[2] == chars@[k + 2]);
            assert(ascii_lower('l') == 'l');
            assert(ascii_lower('e') == 'e');
            assert(ascii_lower('x') == 'x');
        }
    }
    assert(lex == has_lex_extension(file_name@)) by {
        assert(chars@[dot as int] == '.');
        if has_lex_extension(file_name@) {
            let m = choose|m: int|
                0 < m < n && #[trigger] chars@[m] == '.' && (forall|j: int| m < j < n ==> chars@[j] != '.')
                    && eq_ignore_ascii_case(chars@.subrange(m + 1, n as int), "lex"@);
            assert(m == dot);
        }
    }
    lex
}

/// Whether a path names a lex file: its file name has the extension "lex",
/// in any ASCII case.
pub open spec fn lex_path(path: Seq<char>) -> bool {
    path_file_name(path) matches Some(name) && has_lex_extension(name)
}

/// Whether a path names a lex file, judged on its last component as
/// `Path::extension` does.
pub fn is_lex_path(path: &str) -> (lex: bool)
    ensures
        lex == lex_path(path@),
{
    match file_name_of_path(path) {
        Some(name) => {
            let component = name.as_str();
            proof {
                lemma_file_name_has_no_separator(path@);
                assert(path_file_name(path@) == Some(component@));
                assert forall|i: int| 0 <= i < component@.len() implies #[trigger] component@[i]
                    != '/' by {
                    assert(component@[i] == path_file_name(path@)->0[i]);
                }
            }
            is_lex_file_name(component)
        },
        None => false,
    }
}

/// The title of the preview's tab: "Preview" and the file's name, or
/// "Lex Preview" when the preview has no file.
pub fn tab_title(file_name: Option<&str>) -> (title: String)
    ensures
        match file_name {
            Some(name) => title@ == "Preview "@ + name@,
            None => title@ == "Lex Preview"@,
        },
{
    match file_name {
        Some(name) => {
            let mut title = String::from_str("Preview ");
            crate::text::append_str(&mut title, name);
            title
        },
        None => String::from_str("Lex Preview"),
    }
}

/// Whether a language server that came up is lex-lsp.
pub fn is_lex_language_server(name: &str) -> (lex: bool)
    ensures
        lex == (name@ == LEX_LANGUAGE_SERVER_NAME@),
{
    str_equals(name, LEX_LANGUAGE_SERVER_NAME)
}

/// The index of the first running language server named lex-lsp.
pub fn find_lex_server(names: &Vec<String>) -> (index: Option<usize>)
    ensures
        match index {
            Some(i) => i < names@.len() && names@[i as int]@ == LEX_LANGUAGE_SERVER_NAME@
                && forall|j: int| 0 <= j < i ==> names@[j]@ != LEX_LANGUAGE_SERVER_NAME@,
            None => forall|j: int| 0 <= j < names@.len() ==> names@[j]@ != LEX_LANGUAGE_SERVER_NAME@,
        },
{
    let mut i: usize = 0;
    while i < names.len()
        invariant
            i <= names@.len(),
            forall|j: int| 0 <= j < i ==> names@[j]@ != LEX_LANGUAGE_SERVER_NAME@,
        decreases names@.len() - i,
    {
        if is_lex_language_server(names[i].as_str()) {
            return Some(i);
        }
        i = i + 1;
    }
    None
}

/// The workspace command that asks lex-lsp to export a document.
pub struct ExportRequest {
    pub command: String,
    pub arguments: Vec<String>,
}

/// The request that exports `text` as HTML: the `lex.export` command with
/// the arguments "html" and the text.
pub fn export_request(text: String) -> (request: ExportRequest)
    ensures
        request.command@ == EXPORT_COMMAND@,
        request.arguments@.len() == 2,
        request.arguments@[0]@ == "html"@,
        request.arguments@[1]@ == text@,
{
    let mut arguments: Vec<String> = Vec::new();
    arguments.push(String::from_str("html"));
    arguments.push(text);
    ExportRequest { command: String::from_str(EXPORT_COMMAND), arguments }
}

/// The answer of lex-lsp to the export command.
pub enum ExportResponse {
    /// The answer is a string of HTML.
    Html(String),
    /// The answer is empty or not a string.
    NoHtml,
    /// The request failed, with this message.
    Failed(String),
}

/// The message shown while lex-lsp has not started.
pub open spec fn waiting_message() -> Seq<char> {
    "Waiting for the Lex language server to start\u{2026}"@
}

/// The message shown when lex-lsp answers without HTML.
pub open spec fn no_html_message() -> Seq<char> {
    "The Lex language server returned no HTML"@
}

/// The message shown when the export request fails.
pub open spec fn failure_message(error: Seq<char>) -> Seq<char> {
    "Failed to render the document: "@ + error
}

/// The message of a document error.
pub open spec fn document_error_message(error: HtmlDocumentError) -> Seq<char> {
    match error {
        HtmlDocumentError::MissingBody => "HTML document has no body"@,
    }
}

/// What the preview shows while no language server runs for the buffer.
pub fn content_without_server() -> (content: Result<Vec<HtmlNode>, String>)
    ensures
        content matches Err(message) && message@ == waiting_message(),
{
    Err(String::from_str("Waiting for the Lex language server to start\u{2026}"))
}

/// What the preview shows for a parsed answer: the nodes, or the error's
/// message.
pub fn content_from_document(
    document: Result<Vec<HtmlNode>, HtmlDocumentError>,
) -> (content: Result<Vec<HtmlNode>, String>)
    ensures
        match document {
            Ok(nodes) => content matches Ok(shown) && nodes_view(shown@) == nodes_view(nodes@),
            Err(error) => content matches Err(message) && message@ == document_error_message(error),
        },
{
    match document {
        Ok(nodes) => Ok(nodes),
        Err(error) => Err(error.message()),
    }
}

/// What the preview shows for lex-lsp's answer: the parsed HTML, or a
/// message saying what went wrong.
pub fn preview_content(response: ExportResponse) -> (content: Result<Vec<HtmlNode>, String>)
    requires
        response matches ExportResponse::Html(html) ==> utf8_len(html@) <= MAX_HTML_BYTES,
    ensures
        match response {
            ExportResponse::Html(html) => match body_nodes_of(parsed_document(html@)) {
                Some(expected) => content matches Ok(nodes) && nodes_view(nodes@) == expected,
                None => content matches Err(message) && message@ == document_error_message(
                    HtmlDocumentError::MissingBody,
                ),
            },
            ExportResponse::NoHtml => content matches Err(message) && message@
                == no_html_message(),
            ExportResponse::Failed(error) => content matches Err(message) && message@
                == failure_message(error@),
        },
{
    match response {
        ExportResponse::Html(html) => content_from_document(parse_html_document(html.as_str())),
        ExportResponse::NoHtml => Err(String::from_str("The Lex language server returned no HTML")),
        ExportResponse::Failed(error) => {
            let mut message = String::from_str("Failed to render the document: ");
            crate::text::append_str(&mut message, error.as_str());
            Err(message)
        },
    }
}

/// The first step of a refresh.
pub enum RefreshStep {
    /// The preview has no buffer: it clears its content.
    ClearContent,
    /// No lex-lsp runs for the buffer: the preview shows the waiting
    /// message.
    ShowWaiting,
    /// lex-lsp at this index of the running servers is asked to export the
    /// buffer's text.
    RequestExport { server: usize, request: ExportRequest },
}

/// What a refresh does first, given the previewed buffer's text (if the
/// preview has a buffer) and the names of the language servers running for
/// it.
pub fn refresh_step(buffer_text: Option<String>, server_names: &Vec<String>) -> (step: RefreshStep)
    ensures
        match buffer_text {
            None => step is ClearContent,
            Some(text) => match step {
                RefreshStep::ShowWaiting => forall|j: int|
                    0 <= j < server_names@.len() ==> server_names@[j]@ != LEX_LANGUAGE_SERVER_NAME@,
                RefreshStep::RequestExport { server, request } => {
                    &&& server < server_names@.len()
                    &&& server_names@[server as int]@ == LEX_LANGUAGE_SERVER_NAME@
                    &&& forall|j: int| 0 <= j < server ==> server_names@[j]@ != LEX_LANGUAGE_SERVER_NAME@
                    &&& request.command@ == EXPORT_COMMAND@
                    &&& request.arguments@.len() == 2
                    &&& request.arguments@[0]@ == "html"@
                    &&& request.arguments@[1]@ == text@
                },
                RefreshStep::ClearContent => false,
            },
        },
{
    match buffer_text {
        None => RefreshStep::ClearContent,
        Some(text) => match find_lex_server(server_names) {
            None => RefreshStep::ShowWaiting,
            Some(server) => RefreshStep::RequestExport { server, request: export_request(text) },
        },
    }
}

/// What the preview pane draws.
pub enum PreviewBody {
    /// The laid-out document.
    Blocks(Vec<Block>),
    /// A muted message.
    Message(String),
}

/// The value of what the pane draws.
pub enum PreviewBodyView {
    Blocks(Seq<BlockView>),
    Message(Seq<char>),
}

/// The value of a [`PreviewBody`].
pub open spec fn preview_body_view(body: PreviewBody) -> PreviewBodyView {
    match body {
        PreviewBody::Blocks(blocks) => PreviewBodyView::Blocks(blocks_view(blocks@)),
        PreviewBody::Message(message) => PreviewBodyView::Message(message@),
    }
}

/// What the pane draws for its content: the laid-out nodes, the error
/// message, or "No lex file selected" when it has no content.
pub fn preview_body(content: &Option<Result<Vec<HtmlNode>, String>>) -> (body: PreviewBody)
    ensures
        match content {
            Some(Ok(nodes)) => preview_body_view(body) == PreviewBodyView::Blocks(
                layout_nodes(nodes@, -1),
            ),
            Some(Err(message)) => preview_body_view(body) == PreviewBodyView::Message(message@),
            None => preview_body_view(body) == PreviewBodyView::Message("No lex file selected"@),
        },
{
    match content {
        Some(Ok(nodes)) => PreviewBody::Blocks(render_nodes(nodes)),
        Some(Err(message)) => PreviewBody::Message(message.clone()),
        None => PreviewBody::Message(String::from_str("No lex file selected")),
    }
}

/// What happened to the previewed buffer.
#[derive(Debug, Clone, Copy, PartialEq, Eq, Structural)]
pub enum BufferChange {
    Edited,
    Saved,
    Other,
}

/// Whether the preview refreshes after a buffer change, and if it does,
/// whether it waits for edits to settle: edits refresh after the debounce,
/// saves at once, other changes not at all.
pub fn refresh_for_change(change: BufferChange) -> (refresh: Option<bool>)
    ensures
        refresh == match change {
            BufferChange::Edited => Some(true),
            BufferChange::Saved => Some(false),
            BufferChange::Other => None::<bool>,
        },
{
    match change {
        BufferChange::Edited => Some(true),
        BufferChange::Saved => Some(false),
        BufferChange::Other => None,
    }
}

/// Whether a following preview switches to the buffer of the newly active
/// lex editor: it does unless it already shows that buffer.
pub fn follows_to(current: Option<u64>, candidate: u64) -> (switch: bool)
    ensures
        switch == (current != Some(candidate)),
{
    match current {
        Some(id) => id != candidate,
        None => true,
    }
}

/// The buffer that a preview in `mode` switches to when the workspace
/// reports an event: only a following preview, only when the active item
/// changed, only to the single buffer of the now active editor whose file
/// path names a lex file, and only when it does not show that buffer
/// already. `None` where the preview stays as it is.
pub open spec fn follow_target(
    mode: LexPreviewMode,
    active_item_changed: bool,
    active_buffer: Option<u64>,
    active_file_name: Option<Seq<char>>,
    current: Option<u64>,
) -> Option<u64> {
    if mode == LexPreviewMode::Follow && active_item_changed {
        match (active_buffer, active_file_name) {
            (Some(buffer), Some(name)) => if lex_path(name) && current != Some(buffer) {
                Some(buffer)
            } else {
                None
            },
            _ => None,
        }
    } else {
        None
    }
}

/// A following preview that has switched to a buffer does not switch again
/// when the same editor is reported active a second time.
pub proof fn lemma_follow_switch_settles(
    mode: LexPreviewMode,
    active_buffer: Option<u64>,
    active_file_name: Option<Seq<char>>,
    current: Option<u64>,
)
    requires
        follow_target(mode, true, active_buffer, active_file_name, current) is Some,
    ensures
        follow_target(
            mode,
            true,
            active_buffer,
            active_file_name,
            follow_target(mode, true, active_buffer, active_file_name, current),
        ) is None,
{
}

/// Decides what a preview does on a workspace event. `active_buffer` is the
/// single buffer of the active editor, if the active item is an editor of
/// one buffer; `active_file_name` is the name (or path) of that buffer's
/// file, if it has one. Returns the buffer to switch to (the preview then watches it and
/// refreshes at once), or `None` where the preview stays as it is.
pub fn follow_switch(
    mode: LexPreviewMode,
    active_item_changed: bool,
    active_buffer: Option<u64>,
    active_file_name: Option<&str>,
    current: Option<u64>,
) -> (switch: Option<u64>)
    ensures
        switch == follow_target(
            mode,
            active_item_changed,
            active_buffer,
            match active_file_name {
                Some(name) => Some(name@),
                None => None,
            },
            current,
        ),
{
    if mode != LexPreviewMode::Follow || !active_item_changed {
        return None;
    }
    match (active_buffer, active_file_name) {
        (Some(buffer), Some(name)) => {
            if is_lex_path(name) && follows_to(current, buffer) {
                Some(buffer)
            } else {
                None
            }
        },
        _ => None,
    }
}

/// An item of a pane, as the preview sees it.
#[derive(Debug, Clone, Copy, PartialEq, Eq, Structural)]
pub enum PaneItem {
    /// A lex preview, with the buffer it shows if any.
    Preview(Option<u64>),
    /// Any other item.
    Other,
}

/// The index of the first preview in the pane that shows `buffer`.
pub fn find_existing_preview(items: &Vec<PaneItem>, buffer: Option<u64>) -> (index: Option<usize>)
    ensures
        match buffer {
            None => index is None,
            Some(id) => match index {
                Some(i) => i < items@.len() && items@[i as int] == PaneItem::Preview(Some(id))
                    && forall|j: int| 0 <= j < i ==> items@[j] != PaneItem::Preview(Some(id)),
                None => forall|j: int| 0 <= j < items@.len() ==> items@[j] != PaneItem::Preview(Some(id)),
            },
        },
{
    let id = match buffer {
        Some(id) => id,
        None => return None,
    };
    let mut i: usize = 0;
    while i < items.len()
        invariant
            i <= items@.len(),
            buffer == Some(id),
            forall|j: int| 0 <= j < i ==> items@[j] != PaneItem::Preview(Some(id)),
        decreases items@.len() - i,
    {
        if let PaneItem::Preview(Some(shown)) = items[i] {
            if shown == id {
                return Some(i);
            }
        }
        i = i + 1;
    }
    None
}

/// What opening a preview does in the target pane.
#[derive(Debug, Clone, Copy, PartialEq, Eq, Structural)]
pub enum PreviewActivation {
    /// Activates the existing preview at this index.
    Activate { index: usize, focus: bool },
    /// Adds a new preview of the buffer.
    Add { focus: bool },
}

/// Activates the pane's existing preview of the buffer, or adds one.
pub fn activate_or_add(existing: Option<usize>, focus: bool) -> (activation: PreviewActivation)
    ensures
        activation == match existing {
            Some(index) => PreviewActivation::Activate { index, focus },
            None => PreviewActivation::Add { focus },
        },
{
    match existing {
        Some(index) => PreviewActivation::Activate { index, focus },
        None => PreviewActivation::Add { focus },
    }
}

/// The preview commands.
#[derive(Debug, Clone, Copy, PartialEq, Eq, Structural)]
pub enum PreviewCommand {
    /// Opens a preview of the current lex file.
    OpenPreview,
    /// Opens a preview of the current lex file in a split pane.
    OpenPreviewToTheSide,
    /// Opens a lex preview that follows the active editor.
    OpenFollowingPreview,
}

/// Where a command opens its preview.
#[derive(Debug, Clone, Copy, PartialEq, Eq, Structural)]
pub enum PreviewPlacement {
    /// In the active pane, reusing its preview of the buffer, focused.
    InActivePane,
    /// In the pane next to the active one, reusing its preview of the
    /// buffer, not focused.
    BesideActivePane,
    /// A new following preview added to the active pane, focused.
    NewFollowingInActivePane,
}

/// Where each command opens its preview.
pub fn placement_for(command: PreviewCommand) -> (placement: PreviewPlacement)
    ensures
        placement == match command {
            PreviewCommand::OpenPreview => PreviewPlacement::InActivePane,
            PreviewCommand::OpenPreviewToTheSide => PreviewPlacement::BesideActivePane,
            PreviewCommand::OpenFollowingPreview => PreviewPlacement::NewFollowingInActivePane,
        },
{
    match command {
        PreviewCommand::OpenPreview => PreviewPlacement::InActivePane,
        PreviewCommand::OpenPreviewToTheSide => PreviewPlacement::BesideActivePane,
        PreviewCommand::OpenFollowingPreview => PreviewPlacement::NewFollowingInActivePane,
    }
}

/// The mode of the preview each command opens.
pub fn mode_for(command: PreviewCommand) -> (mode: LexPreviewMode)
    ensures
        mode == (if command == PreviewCommand::OpenFollowingPreview {
            LexPreviewMode::Follow
        } else {
            LexPreviewMode::Default
        }),
{
    match command {
        PreviewCommand::OpenFollowingPreview => LexPreviewMode::Follow,
        _ => LexPreviewMode::Default,
    }
}

} // verus!
