use nucleotide::line_runs::line_runs;

#[test]
fn runs_split_where_either_highlighter_changes() {
    let runs = line_runs(0, 10, &[3, 7, usize::MAX], &[5, 20]);
    assert_eq!(runs, vec![(3, 0, 0), (2, 1, 0), (2, 1, 1), (3, 2, 1)]);
    assert_eq!(runs.iter().map(|r| r.0).sum::<usize>(), 10);
}

#[test]
fn an_event_at_the_line_start_is_taken_first() {
    let runs = line_runs(0, 6, &[0, 4, usize::MAX], &[usize::MAX]);
    assert_eq!(runs, vec![(4, 1, 0), (2, 2, 0)]);
}

#[test]
fn events_before_the_line_are_taken_before_drawing() {
    let runs = line_runs(5, 8, &[2, 6, 9], &[8]);
    assert_eq!(runs, vec![(1, 1, 0), (2, 2, 0)]);
}

#[test]
fn an_empty_line_has_no_runs() {
    assert!(line_runs(4, 4, &[1], &[1]).is_empty());
}
