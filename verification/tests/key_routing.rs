use nucleotide::key_routing::{route_key, KeyRoute};

#[test]
fn the_focused_file_tree_keeps_its_keys() {
    assert_eq!(route_key(true, "escape", true, false, false), KeyRoute::FileTree);
    assert_eq!(route_key(true, "j", false, true, true), KeyRoute::FileTree);
}

#[test]
fn escape_dismisses_key_hints_before_the_info_box() {
    assert_eq!(route_key(false, "escape", true, false, true), KeyRoute::DismissKeyHints);
    assert_eq!(route_key(false, "escape", false, false, true), KeyRoute::HideInfo);
    assert_eq!(route_key(false, "escape", false, true, true), KeyRoute::Editor);
}

#[test]
fn an_open_overlay_takes_other_keys() {
    assert_eq!(route_key(false, "j", true, false, false), KeyRoute::Overlay);
    assert_eq!(route_key(false, "j", true, false, true), KeyRoute::Editor);
}
