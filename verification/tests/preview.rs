use lex_preview::preview::{
    activate_or_add, content_from_document, content_without_server, export_request,
    find_existing_preview, find_lex_server, follow_switch, follows_to, is_lex_file_name, is_lex_language_server,
    mode_for, placement_for, preview_body, preview_content, refresh_for_change, tab_title,
    BufferChange, ExportResponse, LexPreviewMode, PaneItem, PreviewActivation, PreviewBody,
    PreviewCommand, PreviewPlacement, EXPORT_COMMAND, LEX_LANGUAGE_SERVER_NAME,
    REFRESH_DEBOUNCE_MILLIS, refresh_step, RefreshStep, TELEMETRY_EVENT_TEXT,
};
use lex_preview::html_tree::HtmlDocumentError;
use lex_preview::render::Block;

#[test]
fn lex_files_are_recognized_by_extension() {
    assert!(is_lex_file_name("doc.lex"));
    assert!(is_lex_file_name("DOC.LEX"));
    assert!(is_lex_file_name("notes.Lex"));
    assert!(is_lex_file_name("a.b.lex"));
    assert!(is_lex_file_name("..lex"));
    assert!(!is_lex_file_name(".lex"));
    assert!(!is_lex_file_name("lex"));
    assert!(!is_lex_file_name("doc.lexx"));
    assert!(!is_lex_file_name("doc.lex.md"));
    assert!(!is_lex_file_name("doc."));
    assert!(!is_lex_file_name(""));
}

#[test]
fn tab_titles() {
    assert_eq!(tab_title(Some("doc.lex")), "Preview doc.lex");
    assert_eq!(tab_title(None), "Lex Preview");
}

#[test]
fn export_request_carries_the_buffer_text() {
    let request = export_request("Title\n\nHello world.\n".to_string());
    assert_eq!(request.command, EXPORT_COMMAND);
    assert_eq!(request.command, "lex.export");
    assert_eq!(request.arguments[0], "html");
    assert!(request.arguments[1].contains("Hello world."));
    assert_eq!(request.arguments.len(), 2);
}

#[test]
fn lex_language_server_is_found_by_name() {
    assert_eq!(LEX_LANGUAGE_SERVER_NAME, "lex-lsp");
    assert!(is_lex_language_server("lex-lsp"));
    assert!(!is_lex_language_server("rust-analyzer"));
    let names = vec!["rust-analyzer".to_string(), "lex-lsp".to_string(), "lex-lsp".to_string()];
    assert_eq!(find_lex_server(&names), Some(1));
    assert_eq!(find_lex_server(&vec!["harper".to_string()]), None);
}

#[test]
fn html_answer_becomes_nodes() {
    let content = preview_content(ExportResponse::Html(
        "<html><body><div class=\"lex-document\"><p class=\"lex-paragraph\">Hello <strong>world</strong>.</p></div></body></html>"
            .to_string(),
    ));
    let nodes = content.expect("content is not an error");
    assert!(!nodes.is_empty(), "parsed HTML should have nodes");
}

#[test]
fn missing_html_and_failures_become_messages() {
    assert_eq!(
        preview_content(ExportResponse::NoHtml).err().as_deref(),
        Some("The Lex language server returned no HTML")
    );
    assert_eq!(
        preview_content(ExportResponse::Failed("timed out".to_string())).err().as_deref(),
        Some("Failed to render the document: timed out")
    );
    assert_eq!(
        preview_content(ExportResponse::Html("<frameset></frameset>".to_string())).err().as_deref(),
        Some("HTML document has no body")
    );
    assert_eq!(
        content_from_document(Err(HtmlDocumentError::MissingBody)).err().as_deref(),
        Some("HTML document has no body")
    );
}

#[test]
fn no_server_means_a_waiting_message() {
    let error = content_without_server().expect_err("no server means a waiting message");
    assert!(error.contains("language server"), "got: {error}");
    assert_eq!(error, "Waiting for the Lex language server to start\u{2026}");
}

#[test]
fn body_for_each_content() {
    match preview_body(&None) {
        PreviewBody::Message(message) => assert_eq!(message, "No lex file selected"),
        PreviewBody::Blocks(_) => panic!("expected message"),
    }
    match preview_body(&Some(Err("oops".to_string()))) {
        PreviewBody::Message(message) => assert_eq!(message, "oops"),
        PreviewBody::Blocks(_) => panic!("expected message"),
    }
    let nodes = preview_content(ExportResponse::Html("<body><p>x</p></body>".to_string()));
    match preview_body(&Some(nodes)) {
        PreviewBody::Blocks(blocks) => {
            assert_eq!(blocks.len(), 1);
            assert!(matches!(&blocks[0], Block::Text(text) if text.text == "x"));
        }
        PreviewBody::Message(message) => panic!("unexpected message {message}"),
    }
}

#[test]
fn refresh_policy() {
    assert_eq!(refresh_for_change(BufferChange::Edited), Some(true));
    assert_eq!(refresh_for_change(BufferChange::Saved), Some(false));
    assert_eq!(refresh_for_change(BufferChange::Other), None);
    assert_eq!(REFRESH_DEBOUNCE_MILLIS, 200);
}

#[test]
fn following_switches_only_to_another_buffer() {
    assert!(follows_to(None, 3));
    assert!(follows_to(Some(2), 3));
    assert!(!follows_to(Some(3), 3));
}

#[test]
fn existing_previews_are_reused() {
    let items = vec![
        PaneItem::Other,
        PaneItem::Preview(None),
        PaneItem::Preview(Some(7)),
        PaneItem::Preview(Some(9)),
        PaneItem::Preview(Some(7)),
    ];
    assert_eq!(find_existing_preview(&items, Some(7)), Some(2));
    assert_eq!(find_existing_preview(&items, Some(9)), Some(3));
    assert_eq!(find_existing_preview(&items, Some(8)), None);
    assert_eq!(find_existing_preview(&items, None), None);
    assert_eq!(
        activate_or_add(Some(2), true),
        PreviewActivation::Activate { index: 2, focus: true }
    );
    assert_eq!(activate_or_add(None, false), PreviewActivation::Add { focus: false });
}

#[test]
fn commands_place_and_mode_previews() {
    assert_eq!(placement_for(PreviewCommand::OpenPreview), PreviewPlacement::InActivePane);
    assert_eq!(
        placement_for(PreviewCommand::OpenPreviewToTheSide),
        PreviewPlacement::BesideActivePane
    );
    assert_eq!(
        placement_for(PreviewCommand::OpenFollowingPreview),
        PreviewPlacement::NewFollowingInActivePane
    );
    assert_eq!(mode_for(PreviewCommand::OpenPreview), LexPreviewMode::Default);
    assert_eq!(mode_for(PreviewCommand::OpenPreviewToTheSide), LexPreviewMode::Default);
    assert_eq!(mode_for(PreviewCommand::OpenFollowingPreview), LexPreviewMode::Follow);
}

#[test]
fn refresh_steps() {
    let servers = vec!["harper".to_string(), "lex-lsp".to_string()];
    assert!(matches!(refresh_step(None, &servers), RefreshStep::ClearContent));
    assert!(matches!(refresh_step(Some("x".to_string()), &vec![]), RefreshStep::ShowWaiting));
    match refresh_step(Some("Title\n".to_string()), &servers) {
        RefreshStep::RequestExport { server, request } => {
            assert_eq!(server, 1);
            assert_eq!(request.command, "lex.export");
            assert_eq!(request.arguments, vec!["html".to_string(), "Title\n".to_string()]);
        }
        _ => panic!("expected an export request"),
    }
    assert_eq!(TELEMETRY_EVENT_TEXT, "lex preview: open");
}

#[test]
fn following_preview_switches_to_another_lex_buffer() {
    assert_eq!(follow_switch(LexPreviewMode::Follow, true, Some(7), Some("notes.lex"), Some(3)), Some(7));
    assert_eq!(follow_switch(LexPreviewMode::Follow, true, Some(7), Some("NOTES.LEX"), None), Some(7));
    assert_eq!(follow_switch(LexPreviewMode::Follow, true, Some(7), Some("notes.lex"), Some(7)), None);
    assert_eq!(follow_switch(LexPreviewMode::Follow, true, Some(7), Some("notes.md"), Some(3)), None);
    assert_eq!(follow_switch(LexPreviewMode::Follow, true, Some(7), None, Some(3)), None);
    assert_eq!(follow_switch(LexPreviewMode::Follow, true, None, Some("notes.lex"), Some(3)), None);
    assert_eq!(follow_switch(LexPreviewMode::Follow, false, Some(7), Some("notes.lex"), Some(3)), None);
    assert_eq!(follow_switch(LexPreviewMode::Default, true, Some(7), Some("notes.lex"), Some(3)), None);
    assert_eq!(follow_switch(LexPreviewMode::Follow, true, Some(7), Some("dir/notes.lex"), Some(3)), Some(7));
    assert_eq!(follow_switch(LexPreviewMode::Follow, true, Some(7), Some("dir.lex/notes"), Some(3)), None);
}
