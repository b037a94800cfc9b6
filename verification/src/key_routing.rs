//! Where the workspace sends a key press: to the file tree, to the key hints
//! or the info box that escape dismisses, to an open overlay, or to the
//! editor.
use vstd::prelude::*;
use crate::text::str_equal;

verus! {

/// Who handles a key press.
#[derive(Debug, Clone, Copy, PartialEq, Eq)]
pub enum KeyRoute {
    /// The file tree has focus and handles its own keys.
    FileTree,
    /// Escape clears the pending key hints.
    DismissKeyHints,
    /// Escape hides the info box.
    HideInfo,
    /// A picker, prompt or completion menu is open and handles the key.
    Overlay,
    /// The key goes to the editor, and the key hints are updated after it.
    Editor,
}

/// The route of a key press, in the order the workspace checks: file-tree
/// focus first, then escape with key hints shown, then escape with the info
/// box shown, then an open overlay.
pub open spec fn key_route_spec(
    file_tree_focused: bool,
    is_escape: bool,
    has_key_hints: bool,
    info_hidden: bool,
    overlay_empty: bool,
) -> KeyRoute {
    if file_tree_focused {
        KeyRoute::FileTree
    } else if is_escape && has_key_hints {
        KeyRoute::DismissKeyHints
    } else if is_escape && !info_hidden {
        KeyRoute::HideInfo
    } else if !overlay_empty {
        KeyRoute::Overlay
    } else {
        KeyRoute::Editor
    }
}

/// Where a press of the key named `key` goes.
pub fn route_key(
    file_tree_focused: bool,
    key: &str,
    has_key_hints: bool,
    info_hidden: bool,
    overlay_empty: bool,
) -> (r: KeyRoute)
    ensures
        r == key_route_spec(
            file_tree_focused,
            key@ == "escape"@,
            has_key_hints,
            info_hidden,
            overlay_empty,
        ),
{
    if file_tree_focused {
        return KeyRoute::FileTree;
    }
    if str_equal(key, "escape") {
        if has_key_hints {
            return KeyRoute::DismissKeyHints;
        }
        if !info_hidden {
            return KeyRoute::HideInfo;
        }
    }
    if !overlay_empty {
        KeyRoute::Overlay
    } else {
        KeyRoute::Editor
    }
}

} // verus!
