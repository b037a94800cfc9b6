use nucleotide::file_tree::{
    DepthDimension, FileKind, FileTreeEntry, FileTreeEntryId, FileTreePathKey, GitStatus,
    IndexDimension, PathDimension, SizeDimension,
};
use nucleotide::simple_file_tree::{OpenAction, SimpleFileEntry, SimpleFileTree};

#[test]
fn new_file_takes_extension_and_hidden_flag_from_the_path() {
    let e = FileTreeEntry::new_file(FileTreeEntryId(7), "/src/main.rs".to_string(), 120, Some(5));
    assert_eq!(e.id, FileTreeEntryId(7));
    assert_eq!(e.kind, FileKind::File { extension: Some("rs".to_string()) });
    assert_eq!(e.extension(), Some("rs"));
    assert_eq!(e.file_name(), Some("main.rs"));
    assert!(!e.is_hidden);
    assert!(e.is_visible);
    assert_eq!(e.size, 120);
    assert_eq!(e.mtime, Some(5));
    assert!(e.is_file() && !e.is_directory() && !e.is_symlink());

    let hidden = FileTreeEntry::new_file(FileTreeEntryId(8), "/home/u/.bashrc".to_string(), 1, None);
    assert!(hidden.is_hidden);
    assert_eq!(hidden.extension(), None);
}

#[test]
fn directories_expand_and_files_do_not() {
    let mut d = FileTreeEntry::new_directory(FileTreeEntryId(1), "/src".to_string(), None);
    assert_eq!(d.kind, FileKind::Directory { is_loaded: false, child_count: 0 });
    assert!(!d.is_expanded());
    d.set_expanded(true);
    assert!(d.is_expanded());
    assert_eq!(d.extension(), None);

    let mut f = FileTreeEntry::new_file(FileTreeEntryId(2), "/src/a.txt".to_string(), 0, None);
    f.set_expanded(true);
    assert!(!f.is_expanded());
    assert!(!f.is_expanded);
}

#[test]
fn symlinks_and_git_status() {
    let mut l = FileTreeEntry::new_symlink(
        FileTreeEntryId(3),
        "/src/.link".to_string(),
        Some("/elsewhere".to_string()),
        false,
        None,
    );
    assert!(l.is_symlink());
    assert!(l.is_hidden);
    assert_eq!(l.size, 0);
    l.set_git_status(GitStatus::Modified);
    assert_eq!(l.git_status, Some(GitStatus::Modified));
    l.clear_git_status();
    assert_eq!(l.git_status, None);
}

#[test]
fn summaries_and_dimensions() {
    let mut e = FileTreeEntry::new_file(FileTreeEntryId(4), "/a/b.c".to_string(), 10, None);
    e.depth = 3;
    let s = e.summary();
    assert_eq!((s.count, s.visible_count, s.file_count, s.directory_count), (1, 1, 1, 0));
    assert_eq!((s.total_size, s.max_depth), (10, 3));
    assert_eq!(s.max_path, "/a/b.c");

    let mut idx = IndexDimension::zero();
    idx.add_summary(&s);
    idx.add_summary(&s);
    assert_eq!(idx, IndexDimension(2));
    let mut size = SizeDimension::zero();
    size.add_summary(&s);
    assert_eq!(size, SizeDimension(10));
    let mut depth = DepthDimension(5);
    depth.add_summary(&s);
    assert_eq!(depth, DepthDimension(5));
    let mut path = PathDimension::zero();
    path.add_summary(&s);
    assert_eq!(path, PathDimension("/a/b.c".to_string()));
    let mut key = FileTreePathKey::zero();
    key.add_summary(&s);
    assert_eq!(key, FileTreePathKey(String::new()));
    assert_eq!(e.key(), FileTreePathKey("/a/b.c".to_string()));
}

fn row(path: &str, is_dir: bool, depth: usize) -> SimpleFileEntry {
    SimpleFileEntry {
        path: path.to_string(),
        name: path.rsplit('/').next().unwrap().to_string(),
        is_dir,
        is_expanded: false,
        depth,
    }
}

#[test]
fn selection_moves_within_the_rows() {
    let mut t = SimpleFileTree::new("/r".to_string(), vec![row("/r/a", true, 0), row("/r/b", false, 0)]);
    assert_eq!(t.selected_index(), None);
    t.select_previous();
    assert_eq!(t.selected_index(), Some(0));
    t.select_next();
    t.select_next();
    assert_eq!(t.selected_index(), Some(1));
    t.select_previous();
    t.select_previous();
    assert_eq!(t.selected_index(), Some(0));
    assert_eq!(t.open_selected(), OpenAction::ToggleDirectory { path: "/r/a".to_string() });
    t.select_next();
    assert_eq!(t.open_selected(), OpenAction::OpenFile { path: "/r/b".to_string() });

    let mut empty = SimpleFileTree::new("/r".to_string(), vec![]);
    empty.select_next();
    assert_eq!(empty.selected_index(), None);
    assert_eq!(empty.open_selected(), OpenAction::Nothing);
}

#[test]
fn expanding_then_collapsing_restores_rows() {
    let rows = vec![row("/r/a", true, 0), row("/r/b", false, 0)];
    let mut t = SimpleFileTree::new("/r".to_string(), rows.clone());
    let i = t.directory_index("/r/a").unwrap();
    assert_eq!(i, 0);
    assert_eq!(t.directory_index("/r/b"), None);
    let expanded = t.toggle_directory_at(i, vec![row("/r/a/x", false, 1), row("/r/a/y", true, 1)]);
    assert!(expanded);
    assert_eq!(t.entries().len(), 4);
    assert_eq!(t.entries()[1].path, "/r/a/x");
    assert_eq!(t.entries()[2].path, "/r/a/y");
    assert!(t.entries()[0].is_expanded);

    // Select a child, then collapse: the selection moves to the directory.
    t.select_next();
    t.select_next();
    assert_eq!(t.selected_index(), Some(1));
    let expanded = t.toggle_directory_at(0, vec![]);
    assert!(!expanded);
    assert_eq!(t.entries(), &rows);
    assert_eq!(t.selected_index(), Some(0));
}

#[test]
fn collapse_moves_later_selection_up() {
    let mut t = SimpleFileTree::new(
        "/r".to_string(),
        vec![row("/r/a", true, 0), row("/r/a/x", false, 1), row("/r/a/y", false, 1), row("/r/b", false, 0)],
    );
    for _ in 0..4 {
        t.select_next();
    }
    assert_eq!(t.selected_index(), Some(3));
    t.collapse_directory(0);
    assert_eq!(t.entries().len(), 2);
    assert_eq!(t.selected_index(), Some(1));
}
