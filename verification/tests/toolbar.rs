use lex_preview::toolbar::{
    click_target, first_supporting_provider, split_hint, supports_lex_item, ClickTarget,
    LEX_PREVIEW_BUTTON_ID, LEX_PREVIEW_TOOLTIP,
};

#[test]
fn first_supporting_provider_wins() {
    assert_eq!(first_supporting_provider(&vec![false, true, true]), Some(1));
    assert_eq!(first_supporting_provider(&vec![false, false]), None);
    assert_eq!(first_supporting_provider(&vec![]), None);
}

#[test]
fn lex_editors_get_a_button_and_other_items_do_not() {
    assert!(supports_lex_item(Some("doc.lex")), "lex file should get a preview button");
    assert!(!supports_lex_item(None), "preview pane must not get a button");
    assert!(!supports_lex_item(Some("doc.md")));
}

#[test]
fn tooltip_and_click() {
    assert_eq!(split_hint("alt-click"), "alt-click to open in a split");
    assert_eq!(LEX_PREVIEW_BUTTON_ID, "toggle-lex-preview");
    assert_eq!(LEX_PREVIEW_TOOLTIP, "Preview Lex");
    assert_eq!(click_target(true), ClickTarget::BesideItemPane);
    assert_eq!(click_target(false), ClickTarget::ItemPane);
}

#[test]
fn lex_item_is_judged_on_the_last_path_component() {
    assert!(supports_lex_item(Some("notes/doc.lex")));
    assert!(!supports_lex_item(Some("notes.lex/doc.md")));
}
