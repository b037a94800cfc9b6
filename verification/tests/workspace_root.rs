use nucleotide::workspace_root::{find_workspace_root_from, marker_paths, workspace_root_among};

#[test]
fn nearest_marked_ancestor_wins() {
    let ancestors = vec!["/a/b/c".to_string(), "/a/b".to_string(), "/a".to_string(), "/".to_string()];
    assert_eq!(workspace_root_among(&ancestors, &vec![false, true, true, false], "/a/b/c"), "/a/b");
    assert_eq!(workspace_root_among(&ancestors, &vec![true, false, false, false], "/a/b/c"), "/a/b/c");
}

#[test]
fn without_a_marker_the_start_directory_is_the_root() {
    let ancestors = vec!["/x/y".to_string(), "/x".to_string()];
    assert_eq!(workspace_root_among(&ancestors, &vec![false, false], "/x/y"), "/x/y");
    assert_eq!(workspace_root_among(&ancestors, &vec![], "/x/y"), "/x/y");
}

#[test]
fn finding_from_a_directory_gives_it_or_an_ancestor() {
    let start = "/tmp/nucleotide-root-probe/inner".to_string();
    let root = find_workspace_root_from(&start);
    assert!(start.starts_with(&root));
}

#[test]
fn markers_are_probed_in_a_fixed_order() {
    assert_eq!(
        marker_paths("/a/b"),
        vec!["/a/b/.git", "/a/b/.svn", "/a/b/.hg", "/a/b/.jj", "/a/b/.helix"]
    );
}
