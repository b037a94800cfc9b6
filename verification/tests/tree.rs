use nucleotide::file_tree::{FileKind, FileTreeEntry, FileTreeEntryId};
use nucleotide::tree::{DiskEntry, DiskKind, FileTree, FileTreeConfig, FileTreeError};

fn dir(path: &str) -> DiskEntry {
    DiskEntry { path: path.to_string(), kind: DiskKind::Directory, mtime: None }
}

fn file(path: &str, size: u64) -> DiskEntry {
    DiskEntry { path: path.to_string(), kind: DiskKind::File { size }, mtime: Some(1) }
}

fn disk(path: &str) -> Result<Vec<DiskEntry>, String> {
    match path {
        "/r" => Ok(vec![dir("/r/src"), file("/r/README.md", 10), dir("/r/.git"), file("/r/a-b", 3), dir("/r/a")]),
        "/r/src" => Ok(vec![file("/r/src/main.rs", 5), dir("/r/src/lib")]),
        "/r/src/lib" => Ok(vec![file("/r/src/lib/x.rs", 2)]),
        "/r/a" => Ok(vec![file("/r/a/z", 1)]),
        _ => Err(format!("Failed to read directory: {}", path)),
    }
}

fn paths(entries: &[FileTreeEntry]) -> Vec<String> {
    entries.iter().map(|e| e.path.clone()).collect()
}

fn loaded() -> FileTree {
    let mut tree = FileTree::new("/r".to_string(), FileTreeConfig::default());
    tree.load(&disk).unwrap();
    tree
}

#[test]
fn loading_reads_one_level_below_the_root_in_component_order() {
    let tree = loaded();
    assert_eq!(
        paths(tree.entries()),
        vec!["/r/README.md", "/r/a", "/r/a/z", "/r/a-b", "/r/src", "/r/src/lib", "/r/src/main.rs"]
    );
    assert_eq!(paths(&tree.visible_entries()), vec!["/r/README.md", "/r/a", "/r/a-b", "/r/src"]);
    assert_eq!(tree.total_count(), 7);
    assert_eq!(tree.visible_count(), 4);
    let stats = tree.stats();
    assert_eq!(stats.total_entries, 7);
    assert_eq!(stats.visible_entries, 4);
    assert_eq!(stats.file_count, 4);
    assert_eq!(stats.directory_count, 3);
    assert_eq!(stats.total_size, 19);
    assert_eq!(stats.max_depth, 1);
}

#[test]
fn ids_follow_the_reading_order_and_children_are_counted() {
    let tree = loaded();
    let src = tree.entry_by_path("/r/src").unwrap();
    assert_eq!(src.id, FileTreeEntryId(1));
    assert_eq!(src.kind, FileKind::Directory { is_loaded: true, child_count: 2 });
    assert_eq!(tree.entry_by_path("/r/src/main.rs").unwrap().id, FileTreeEntryId(2));
    assert_eq!(tree.entry_by_path("/r/README.md").unwrap().id, FileTreeEntryId(4));
    // The second directory counts every entry gathered before it.
    let a = tree.entry_by_path("/r/a/").unwrap();
    assert_eq!(a.kind, FileKind::Directory { is_loaded: true, child_count: 6 });
    assert!(tree.entry_by_path("/r/.git").is_none());
}

#[test]
fn showing_hidden_entries_reads_them_too() {
    let mut tree = FileTree::new("/r".to_string(), FileTreeConfig { show_hidden: true, show_ignored: false, initial_depth: 0 });
    tree.load(&disk).unwrap();
    assert_eq!(paths(tree.entries()), vec!["/r/.git", "/r/README.md", "/r/a", "/r/a-b", "/r/src"]);
    assert!(tree.entry_by_path("/r/.git").unwrap().is_hidden);
}

#[test]
fn a_failed_root_read_fails_the_load() {
    let mut tree = FileTree::new("/missing".to_string(), FileTreeConfig::default());
    assert_eq!(
        tree.load(&disk),
        Err(FileTreeError::Read("Failed to read directory: /missing".to_string()))
    );
    assert!(tree.entries().is_empty());
}

#[test]
fn toggling_expands_then_collapses() {
    let mut tree = loaded();
    assert!(!tree.is_expanded("/r/src"));
    assert_eq!(tree.toggle_directory("/r/src", &disk), Ok(true));
    assert!(tree.is_expanded("/r/src/"));
    assert!(tree.entry_by_path("/r/src").unwrap().is_expanded);
    assert!(tree.visible_entries().iter().any(|e| e.path == "/r/src/main.rs"));
    assert_eq!(tree.toggle_directory("/r/src", &disk), Ok(false));
    assert!(!tree.is_expanded("/r/src"));
    assert!(!tree.visible_entries().iter().any(|e| e.path.starts_with("/r/src/")));
    assert!(tree.visible_entries().iter().any(|e| e.path == "/r/src"));
}

#[test]
fn toggling_refuses_missing_paths_and_files() {
    let mut tree = loaded();
    assert_eq!(tree.toggle_directory("/r/nothing", &disk), Err(FileTreeError::NotFound));
    assert_eq!(tree.toggle_directory("/r/README.md", &disk), Err(FileTreeError::NotADirectory));
    assert_eq!(FileTreeError::NotFound.message(), "Entry not found");
    assert_eq!(FileTreeError::NotADirectory.message(), "Not a directory");
}

#[test]
fn upserted_entries_are_read_back_and_removed() {
    let mut tree = FileTree::new("/r".to_string(), FileTreeConfig::default());
    let e = FileTreeEntry::new_file(FileTreeEntryId(40), "/r/b.txt".to_string(), 4, None);
    tree.upsert_entry(e.clone());
    tree.upsert_entry(FileTreeEntry::new_file(FileTreeEntryId(41), "/r/a.txt".to_string(), 1, None));
    assert_eq!(paths(tree.entries()), vec!["/r/a.txt", "/r/b.txt"]);
    assert_eq!(tree.entry_by_path("/r/b.txt"), Some(e.clone()));
    let mut replaced = e.clone();
    replaced.size = 9;
    tree.upsert_entry(replaced.clone());
    assert_eq!(tree.total_count(), 2);
    assert_eq!(tree.entry_by_path("/r/b.txt"), Some(replaced.clone()));
    assert_eq!(tree.remove_entry("/r/b.txt"), Some(replaced));
    assert_eq!(tree.entry_by_path("/r/b.txt"), None);
    assert_eq!(tree.remove_entry("/r/b.txt"), None);
    assert_eq!(tree.remove_entry_by_id(FileTreeEntryId(41)).map(|e| e.path), Some("/r/a.txt".to_string()));
    assert_eq!(tree.total_count(), 0);
}

#[test]
fn changing_the_configuration_works_out_visibility_again() {
    let mut tree = FileTree::new("/r".to_string(), FileTreeConfig { show_hidden: true, show_ignored: false, initial_depth: 0 });
    tree.load(&disk).unwrap();
    assert!(tree.entry_by_path("/r/.git").unwrap().is_visible);
    tree.set_config(FileTreeConfig::default());
    assert!(!tree.entry_by_path("/r/.git").unwrap().is_visible);
    assert_eq!(tree.config(), FileTreeConfig::default());
    tree.hide_children("/r");
    assert_eq!(tree.visible_count(), 0);
}

#[test]
fn refreshing_starts_the_ids_again() {
    let mut tree = loaded();
    tree.refresh(&disk).unwrap();
    assert_eq!(tree.entry_by_path("/r/src").unwrap().id, FileTreeEntryId(1));
    assert_eq!(tree.total_count(), 7);
}
