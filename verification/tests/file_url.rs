use nucleotide::file_url::{parse_file_url, replace_text};

#[test]
fn file_urls_give_decoded_paths() {
    assert_eq!(
        parse_file_url("file:///Users/me/My%20Project/a%2Bb%3Dc.rs"),
        Some("/Users/me/My Project/a+b=c.rs".to_string())
    );
    assert_eq!(parse_file_url("file:/tmp/x%40y%2Bz"), Some("/tmp/x@y%2Bz".to_string()));
    assert_eq!(parse_file_url("file://"), Some(String::new()));
    assert_eq!(parse_file_url("/plain/path"), None);
    assert_eq!(parse_file_url("https://example.com"), None);
}

#[test]
fn replacing_goes_left_to_right_without_overlaps() {
    assert_eq!(replace_text("aaaa", "aa", "b"), "bb");
    assert_eq!(replace_text("a%2520b", "%25", "%"), "a%20b");
    assert_eq!(replace_text("none here", "%20", " "), "none here");
}
