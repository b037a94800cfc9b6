use nucleotide::picker::{fuzzy_match, PickerState};

fn picker(labels: &[&str]) -> PickerState {
    PickerState::new().with_items(labels.iter().map(|s| s.to_string()).collect())
}

#[test]
fn fuzzy_match_takes_characters_in_order_ignoring_case() {
    assert!(fuzzy_match("src/main.rs", "smr"));
    assert!(fuzzy_match("Cargo.toml", "CARGO"));
    assert!(fuzzy_match("anything", ""));
    assert!(!fuzzy_match("main.rs", "rm"));
    assert!(!fuzzy_match("abc", "abcd"));
}

#[test]
fn new_picker_shows_every_item() {
    let p = picker(&["a", "b", "c"]);
    assert_eq!(p.filtered_indices(), &vec![0, 1, 2]);
    assert_eq!(p.selected_item(), Some(0));
    assert_eq!(p.query(), "");
    assert_eq!(p.cursor_position(), 0);
}

#[test]
fn set_query_filters_and_puts_cursor_at_the_end_in_bytes() {
    let mut p = picker(&["main.rs", "lib.rs", "README.md"]);
    p.set_query("rs".to_string());
    assert_eq!(p.filtered_indices(), &vec![0, 1]);
    assert_eq!(p.selected_index(), 0);
    assert_eq!(p.cursor_position(), 2);
    p.set_query("é".to_string());
    assert_eq!(p.cursor_position(), 2);
    assert!(p.filtered_indices().is_empty());
    assert_eq!(p.selected_item(), None);
}

#[test]
fn typing_and_deleting_update_the_query_at_the_cursor() {
    let mut p = picker(&["main.rs", "lib.rs"]);
    p.insert_char('l');
    p.insert_char('b');
    assert_eq!(p.query(), "lb");
    assert_eq!(p.cursor_position(), 2);
    assert_eq!(p.filtered_indices(), &vec![1]);
    p.delete_char();
    assert_eq!(p.query(), "l");
    assert_eq!(p.cursor_position(), 1);
    assert_eq!(p.filtered_indices(), &vec![1]);
    p.delete_char();
    assert_eq!(p.query(), "");
    assert_eq!(p.filtered_indices(), &vec![0, 1]);
    // At the start nothing is deleted.
    p.delete_char();
    assert_eq!(p.query(), "");
}

#[test]
fn moving_the_selection_stays_within_the_matches() {
    let mut p = picker(&["a", "b", "c"]);
    p.move_selection(1);
    assert_eq!(p.selected_index(), 1);
    p.move_selection(10);
    assert_eq!(p.selected_index(), 2);
    assert_eq!(p.selected_item(), Some(2));
    p.move_selection(-1);
    assert_eq!(p.selected_index(), 1);
    p.move_selection(-5);
    assert_eq!(p.selected_index(), 0);
}

#[test]
fn moving_without_matches_changes_nothing() {
    let mut p = picker(&["a"]);
    p.set_query("zz".to_string());
    p.move_selection(1);
    assert_eq!(p.selected_index(), 0);
}

#[test]
fn the_list_is_sized_for_at_most_twenty_rows() {
    let labels: Vec<String> = (0..30).map(|i| format!("file{i}.rs")).collect();
    let mut picker = PickerState::new().with_items(labels);
    assert_eq!(picker.shown_rows(), 20);
    picker.set_query("file1".to_string());
    // file1.rs, file10.rs .. file19.rs and file21.rs
    assert_eq!(picker.shown_rows(), 12);
    picker.set_query("zzz".to_string());
    assert_eq!(picker.shown_rows(), 0);
    let empty = PickerState::new();
    assert_eq!(empty.shown_rows(), 0);
}
