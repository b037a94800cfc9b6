use nucleotide::buffers::{buffer_picker_rows, buffer_row, document_number, should_show_tabs, BufferLineMode, BufferMeta};
use nucleotide::picker::{file_picker_labels, picker_walk_enters};

fn meta(id: &str, path: Option<&str>, modified: bool, current: bool, at: u64) -> BufferMeta {
    BufferMeta {
        doc_id: id.to_string(),
        path: path.map(|p| p.to_string()),
        is_modified: modified,
        is_current: current,
        focused_at_ms: at,
    }
}

#[test]
fn tabs_show_by_mode_and_count() {
    assert!(!should_show_tabs(BufferLineMode::Never, 5));
    assert!(should_show_tabs(BufferLineMode::Always, 0));
    assert!(!should_show_tabs(BufferLineMode::Multiple, 1));
    assert!(should_show_tabs(BufferLineMode::Multiple, 2));
}

#[test]
fn document_numbers_are_read_from_displayed_ids() {
    assert_eq!(document_number("DocumentId(12)"), "12");
    assert_eq!(document_number("3"), "3");
    assert_eq!(document_number("doc(  7 )"), "7");
    assert_eq!(document_number("x(5"), "5");
    assert_eq!(document_number("id-42-x"), "42");
    assert_eq!(document_number("none"), "");
}

#[test]
fn rows_read_like_a_terminal_listing() {
    assert_eq!(
        buffer_row(&meta("DocumentId(3)", Some("/p/src/a.rs"), true, true, 0), Some("/p")),
        "3    +* src/a.rs"
    );
    assert_eq!(buffer_row(&meta("12", None, false, false, 0), Some("/p")), "12      [scratch]");
    assert_eq!(buffer_row(&meta("1", Some("/elsewhere/b.rs"), false, true, 0), Some("/p")), "1    *  /elsewhere/b.rs");
    assert_eq!(buffer_row(&meta("1", Some("/p/b.rs"), true, false, 0), None), "1    +  /p/b.rs");
}

#[test]
fn buffers_are_listed_most_recent_first() {
    let rows = buffer_picker_rows(
        vec![meta("1", Some("/p/a"), false, false, 10), meta("2", Some("/p/b"), false, true, 30), meta("3", None, true, false, 20)],
        Some("/p"),
    );
    let ids: Vec<&str> = rows.iter().map(|(_, m)| m.doc_id.as_str()).collect();
    assert_eq!(ids, vec!["2", "3", "1"]);
    assert_eq!(rows[0].0, "2    *  b");
}

#[test]
fn file_picker_labels_are_relative_with_their_directory() {
    assert_eq!(file_picker_labels("/w/src/main.rs", "/w"), ("src/main.rs".to_string(), Some("src".to_string())));
    assert_eq!(file_picker_labels("/w/Cargo.toml", "/w"), ("Cargo.toml".to_string(), None));
    assert_eq!(file_picker_labels("/other/x.rs", "/w"), ("/other/x.rs".to_string(), Some("/other".to_string())));
    assert!(picker_walk_enters("src", true));
    assert!(!picker_walk_enters("node_modules", true));
    assert!(picker_walk_enters("target", false));
}

#[test]
fn buffers_focused_at_the_same_time_keep_their_order() {
    let rows = buffer_picker_rows(
        vec![
            meta("1", None, false, false, 10),
            meta("2", None, false, false, 20),
            meta("3", None, false, false, 10),
            meta("4", None, false, false, 20),
            meta("5", None, false, false, 15),
        ],
        None,
    );
    let ids: Vec<&str> = rows.iter().map(|(_, m)| m.doc_id.as_str()).collect();
    assert_eq!(ids, vec!["2", "4", "5", "1", "3"]);
}
