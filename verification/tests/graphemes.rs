use nucleotide::graphemes::{
    bytes_before_cluster, char_idx_to_grapheme_idx, clusters_before_byte, grapheme_idx_to_char_idx,
};

#[test]
fn ascii_indices_are_unchanged() {
    assert_eq!(char_idx_to_grapheme_idx("hello", 3), 3);
    assert_eq!(grapheme_idx_to_char_idx("hello", 3), 3);
}

#[test]
fn combined_characters_count_as_one_cluster() {
    // "e" followed by a combining acute accent is one cluster of three bytes.
    let line = "e\u{301}x";
    assert_eq!(char_idx_to_grapheme_idx(line, 2), 1);
    assert_eq!(char_idx_to_grapheme_idx(line, 3), 1);
    assert_eq!(char_idx_to_grapheme_idx(line, 4), 2);
    assert_eq!(grapheme_idx_to_char_idx(line, 1), 3);
    assert_eq!(grapheme_idx_to_char_idx(line, 2), 4);
}

#[test]
fn indices_past_the_end_stop_at_the_end() {
    assert_eq!(char_idx_to_grapheme_idx("ab", 10), 2);
    assert_eq!(grapheme_idx_to_char_idx("ab", 10), 2);
}

#[test]
fn cluster_arithmetic_over_lengths() {
    let lens = vec![1, 3, 2];
    assert_eq!(clusters_before_byte(&lens, 0), 0);
    assert_eq!(clusters_before_byte(&lens, 1), 1);
    assert_eq!(clusters_before_byte(&lens, 2), 2);
    assert_eq!(clusters_before_byte(&lens, 4), 2);
    assert_eq!(clusters_before_byte(&lens, 5), 3);
    assert_eq!(bytes_before_cluster(&lens, 2), 4);
    assert_eq!(bytes_before_cluster(&lens, 7), 6);
}
