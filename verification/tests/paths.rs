use nucleotide::paths::{path_le_exec, path_within_exec, same_path_exec};
use nucleotide::simple_file_tree::{listing_entries, ListedEntry};

#[test]
fn paths_compare_by_components() {
    assert!(same_path_exec("/a/b", "/a//b/"));
    assert!(!same_path_exec("/a/b", "a/b"));
    assert!(path_le_exec("/a/b", "/a-b"));
    assert!(!path_le_exec("/a-b", "/a/b"));
    assert!(path_le_exec("/a", "/a/b"));
    assert!(path_within_exec("/a/b/c", "/a/b"));
    assert!(path_within_exec("/a/b", "/a/b"));
    assert!(!path_within_exec("/a/bc", "/a/b"));
}

#[test]
fn listings_put_directories_first_and_skip_hidden_names() {
    let item = |name: &str, is_dir: bool| ListedEntry { path: format!("/p/{}", name), name: name.to_string(), is_dir };
    let rows = listing_entries(vec![item("b.rs", false), item(".hidden", true), item("zeta", true), item("a.rs", false), item("alpha", true)], 1, 1);
    let names: Vec<&str> = rows.iter().map(|r| r.name.as_str()).collect();
    assert_eq!(names, vec!["alpha", "zeta", "a.rs", "b.rs"]);
    assert!(rows.iter().all(|r| r.depth == 1 && !r.is_expanded));
    assert!(listing_entries(vec![item("x", false)], 2, 1).is_empty());
}
