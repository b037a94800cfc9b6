use nucleotide::key_hints::{fallback_color, hint_color, hint_line, HintColor, HintLine};
use nucleotide::statusline::{bar_file_name, document_file_name, mode_name, window_title, position_text, status_file_name, EditorMode};

#[test]
fn modes_have_short_names() {
    assert_eq!(mode_name(EditorMode::Normal), "NOR");
    assert_eq!(mode_name(EditorMode::Insert), "INS");
    assert_eq!(mode_name(EditorMode::Select), "SEL");
}

#[test]
fn positions_count_from_one() {
    assert_eq!(position_text(0, 0), "1:1");
    assert_eq!(position_text(41, 9), "42:10");
}

#[test]
fn file_names_are_shortened_past_fifty_bytes() {
    assert_eq!(status_file_name(None), "[scratch]");
    assert_eq!(status_file_name(Some("/home/me/project/src/main.rs")), "/home/me/project/src/main.rs");
    let long = "/home/someone/projects/a-rather-long-project-name/src/deeply/nested/module.rs";
    assert_eq!(status_file_name(Some(long)), ".../nested/module.rs");
    let long_at_root = "/a-file-name-that-is-long-enough-to-pass-the-fifty-byte-limit.rs";
    assert_eq!(
        status_file_name(Some(long_at_root)),
        ".../a-file-name-that-is-long-enough-to-pass-the-fifty-byte-limit.rs"
    );
}

#[test]
fn hint_lines_split_into_key_and_description() {
    assert_eq!(
        hint_line("w      write buffer"),
        HintLine::KeyAndDescription { key: "w".to_string(), description: "write buffer".to_string() }
    );
    assert_eq!(hint_line("  goto"), HintLine::DescriptionOnly("goto".to_string()));
    assert_eq!(hint_line("single"), HintLine::Plain("single".to_string()));
    assert_eq!(
        hint_line("gd\n go to definition\r"),
        HintLine::KeyAndDescription { key: "gd".to_string(), description: "go to definition".to_string() }
    );
}

#[test]
fn popups_take_the_theme_background() {
    assert_eq!(hint_color("ui.popup.info", true, true), HintColor::Background);
    assert_eq!(hint_color("ui.window", true, false), HintColor::Background);
    assert_eq!(hint_color("ui.text.info", true, true), HintColor::Foreground);
    assert_eq!(hint_color("ui.popup", false, true), HintColor::Foreground);
}

#[test]
fn without_theme_colors_the_fallbacks_apply() {
    assert_eq!(hint_color("ui.popup", false, false), HintColor::Fixed(0x2a2a3e));
    assert_eq!(fallback_color("ui.popup.info"), 0x3b3b52);
    assert_eq!(fallback_color("ui.window"), 0x414559);
    assert_eq!(fallback_color("ui.text"), 0xc6d0f5);
    assert_eq!(fallback_color("anything"), 0xc6d0f5);
}

#[test]
fn the_focused_document_is_named_by_its_last_component() {
    assert_eq!(document_file_name("/home/user/project/src/main.rs"), "main.rs");
    assert_eq!(document_file_name("notes.txt"), "notes.txt");
    assert_eq!(document_file_name("/"), "/");
}

#[test]
fn the_window_title_names_the_focused_document() {
    assert_eq!(window_title(Some("main.rs")), "main.rs \u{2014} Helix");
    assert_eq!(window_title(None), "Helix");
}

#[test]
fn the_status_bar_shortens_long_paths_to_the_file_name() {
    assert_eq!(bar_file_name(None), "[scratch]");
    assert_eq!(bar_file_name(Some("/short/path.rs")), "/short/path.rs");
    let long = "/home/user/projects/a/very/deeply/nested/folder/structure/main.rs";
    assert_eq!(bar_file_name(Some(long)), ".../main.rs");
}
