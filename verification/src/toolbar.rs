//! The toolbar's preview button: which registered provider offers it for
//! the active item, what its tooltip says, and what a click opens.
use vstd::prelude::*;

use crate::preview::{is_lex_path, lex_path};

verus! {

/// The element id of the Lex preview button.
pub const LEX_PREVIEW_BUTTON_ID: &'static str = "toggle-lex-preview";

/// The tooltip of the Lex preview button.
pub const LEX_PREVIEW_TOOLTIP: &'static str = "Preview Lex";

/// The index of the first registered provider that supports the active
/// item, given for each provider in registration order whether it does.
pub fn first_supporting_provider(supports: &Vec<bool>) -> (index: Option<usize>)
    ensures
        match index {
            Some(i) => i < supports@.len() && supports@[i as int] && forall|j: int|
                0 <= j < i ==> !supports@[j],
            None => forall|j: int| 0 <= j < supports@.len() ==> !supports@[j],
        },
{
    let mut i: usize = 0;
    while i < supports.len()
        invariant
            i <= supports@.len(),
            forall|j: int| 0 <= j < i ==> !supports@[j],
        decreases supports@.len() - i,
    {
        if supports[i] {
            return Some(i);
        }
        i = i + 1;
    }
    None
}

/// The tooltip's second line: the alt-click keystroke, then
/// " to open in a split".
pub fn split_hint(keystroke: &str) -> (hint: String)
    ensures
        hint@ == keystroke@ + " to open in a split"@,
{
    let mut hint = String::from_str(keystroke);
    crate::text::append_str(&mut hint, " to open in a split");
    hint
}

/// Whether the Lex provider offers a preview for an item: the item is an
/// editor of a single buffer whose file name (or path) names a lex file.
pub fn supports_lex_item(singleton_file_name: Option<&str>) -> (supported: bool)
    ensures
        supported == (singleton_file_name matches Some(name) && lex_path(name@)),
{
    match singleton_file_name {
        Some(name) => is_lex_path(name),
        None => false,
    }
}

/// Where a click on the button opens the preview.
#[derive(Debug, Clone, Copy, PartialEq, Eq, Structural)]
pub enum ClickTarget {
    /// In the pane that holds the item, focused.
    ItemPane,
    /// In the pane beside it, not focused.
    BesideItemPane,
}

/// Where a click opens the preview: alt-click in a split beside the item's
/// pane, a plain click in the item's pane.
pub fn click_target(alt_held: bool) -> (target: ClickTarget)
    ensures
        target == (if alt_held {
            ClickTarget::BesideItemPane
        } else {
            ClickTarget::ItemPane
        }),
{
    if alt_held {
        ClickTarget::BesideItemPane
    } else {
        ClickTarget::ItemPane
    }
}

} // verus!
