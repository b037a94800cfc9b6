use nucleotide::search::{
    invalid_pattern_message, search_ignores_case, search_message, search_outcome, SearchMessage,
    SearchOutcome,
};

#[test]
fn smart_case_ignores_case_only_for_lowercase_patterns() {
    assert!(search_ignores_case(true, "needle"));
    assert!(search_ignores_case(true, ""));
    assert!(!search_ignores_case(true, "Needle"));
    assert!(!search_ignores_case(true, "needle2"));
    assert!(!search_ignores_case(false, "needle"));
}

#[test]
fn a_match_after_the_cursor_is_selected() {
    let r = search_outcome(Some((10, 14)), Some((2, 6)), true, 8);
    assert_eq!(r, SearchOutcome::Selected { start: 10, end: 14, wrapped: false });
    assert_eq!(search_message(r, "abcd"), None);
}

#[test]
fn a_search_wraps_to_the_top_of_the_document() {
    let r = search_outcome(None, Some((2, 6)), true, 8);
    assert_eq!(r, SearchOutcome::Selected { start: 2, end: 6, wrapped: true });
    assert_eq!(
        search_message(r, "abcd"),
        Some(SearchMessage::Status("Wrapped around document".to_string()))
    );
}

#[test]
fn without_wrap_around_a_search_fails_at_the_end() {
    let r = search_outcome(None, Some((2, 6)), false, 8);
    assert_eq!(r, SearchOutcome::NotFound);
    assert_eq!(
        search_message(r, "abcd"),
        Some(SearchMessage::Error("Pattern not found: abcd".to_string()))
    );
}

#[test]
fn an_empty_match_selects_nothing() {
    let r = search_outcome(Some((5, 5)), None, true, 0);
    assert_eq!(r, SearchOutcome::EmptyMatch);
    assert_eq!(search_message(r, "x*"), Some(SearchMessage::Error("Empty match".to_string())));
}

#[test]
fn an_invalid_pattern_is_reported() {
    assert_eq!(
        invalid_pattern_message("(a"),
        "Invalid regex: Failed to compile regex: (a"
    );
}
