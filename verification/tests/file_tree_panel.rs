use nucleotide::file_tree_panel::{FileTreeEvent, FileTreePanel};
use nucleotide::tree::{DiskEntry, DiskKind, FileTreeConfig};

fn disk(path: &str) -> Result<Vec<DiskEntry>, String> {
    let d = |p: &str| DiskEntry { path: p.to_string(), kind: DiskKind::Directory, mtime: None };
    let f = |p: &str| DiskEntry { path: p.to_string(), kind: DiskKind::File { size: 1 }, mtime: None };
    match path {
        "/w" => Ok(vec![d("/w/docs"), f("/w/main.rs")]),
        "/w/docs" => Ok(vec![f("/w/docs/guide.md")]),
        _ => Err("unreadable".to_string()),
    }
}

fn panel() -> FileTreePanel {
    FileTreePanel::new("/w".to_string(), FileTreeConfig { show_hidden: false, show_ignored: false, initial_depth: 0 }, &disk)
}

#[test]
fn selection_moves_over_shown_entries() {
    let mut p = panel();
    assert_eq!(p.selected_path(), None);
    assert_eq!(
        p.select_next(),
        Some(FileTreeEvent::SelectionChanged { path: Some("/w/main.rs".to_string()) })
    );
    // Already on the last entry: nothing changes.
    assert_eq!(p.select_next(), None);
    assert_eq!(
        p.select_previous(),
        Some(FileTreeEvent::SelectionChanged { path: Some("/w/docs".to_string()) })
    );
    assert_eq!(p.select_previous(), None);
    assert_eq!(
        p.select_last(),
        Some(FileTreeEvent::SelectionChanged { path: Some("/w/main.rs".to_string()) })
    );
    assert_eq!(
        p.select_first(),
        Some(FileTreeEvent::SelectionChanged { path: Some("/w/docs".to_string()) })
    );
    assert_eq!(p.select_path(Some("/w/docs/".to_string())), None);
    assert_eq!(p.select_path(None), Some(FileTreeEvent::SelectionChanged { path: None }));
}

#[test]
fn opening_a_file_reports_it_and_a_directory_toggles() {
    let mut p = panel();
    p.select_path(Some("/w/main.rs".to_string()));
    assert_eq!(p.open_selected(&disk), Some(FileTreeEvent::OpenFile { path: "/w/main.rs".to_string() }));
    p.select_path(Some("/w/docs".to_string()));
    assert_eq!(
        p.open_selected(&disk),
        Some(FileTreeEvent::DirectoryToggled { path: "/w/docs".to_string(), expanded: true })
    );
    assert_eq!(
        p.toggle_directory("/w/docs", &disk),
        Some(FileTreeEvent::DirectoryToggled { path: "/w/docs".to_string(), expanded: false })
    );
    assert_eq!(p.toggle_directory("/w/none", &disk), None);
}

#[test]
fn refreshing_and_statistics() {
    let mut p = panel();
    assert!(p.refresh(&disk));
    assert_eq!(p.stats().total_entries, 2);
    assert_eq!(p.tree().root_path(), "/w");
}
